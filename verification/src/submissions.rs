use vstd::prelude::*;

use crate::errors::LedgerError;
use crate::time::Timestamp;

verus! {

/// One recorded submission: the ledger's local receipt time for a
/// (round, bot) pair.
#[derive(Clone, Copy, Debug, PartialEq, Eq, Structural)]
pub struct StoredSubmission {
    pub time: Timestamp,
}

/// The mathematical value of one arrival: which bot submitted which
/// round, and when the ledger received it.
pub ghost struct SubmissionView {
    pub round: u64,
    pub bot: Seq<char>,
    pub time: Timestamp,
}

struct OrderedSubmission {
    round: u64,
    bot: String,
    time: Timestamp,
}

impl View for OrderedSubmission {
    type V = SubmissionView;

    closed spec fn view(&self) -> SubmissionView {
        SubmissionView { round: self.round, bot: self.bot@, time: self.time }
    }
}

/// The outcome of recording one submission: the bot's 0-based arrival
/// rank for the round, and whether this call created the record.
#[derive(Clone, Copy, Debug, PartialEq, Eq, Structural)]
pub struct SubmissionOutcome {
    pub rank: usize,
    pub is_new: bool,
}

/// The bots that submitted `round`, in arrival order.
pub open spec fn round_bots(s: Seq<SubmissionView>, round: u64) -> Seq<Seq<char>>
    decreases s.len(),
{
    if s.len() == 0 {
        Seq::empty()
    } else if s.last().round == round {
        round_bots(s.drop_last(), round).push(s.last().bot)
    } else {
        round_bots(s.drop_last(), round)
    }
}

/// True iff `bot` has a recorded submission for `round`.
pub open spec fn round_has_bot(s: Seq<SubmissionView>, round: u64, bot: Seq<char>) -> bool {
    exists|i: int| 0 <= i < s.len() && s[i].round == round && s[i].bot == bot
}

/// The position in the arrival list at which `bot`'s submission for
/// `round` is recorded. Only meaningful when [`round_has_bot`] holds
/// of a well-formed list.
pub open spec fn flat_index_of(s: Seq<SubmissionView>, round: u64, bot: Seq<char>) -> int {
    choose|i: int| 0 <= i < s.len() && s[i].round == round && s[i].bot == bot
}

/// The receipt time recorded for `bot`'s submission of `round`.
pub open spec fn submission_time_of(s: Seq<SubmissionView>, round: u64, bot: Seq<char>) -> Timestamp {
    s[flat_index_of(s, round, bot)].time
}

/// Well-formedness of the arrival list: at most one record per
/// (round, bot) pair.
pub open spec fn tracker_wf(s: Seq<SubmissionView>) -> bool {
    forall|i: int, j: int|
        0 <= i < j < s.len() ==> !(#[trigger] s[i].round == #[trigger] s[j].round && s[i].bot
            == s[j].bot)
}

/// The arrival list after `record_submission(round, bot, now)`: a
/// re-submission changes nothing, a first submission is appended.
pub open spec fn record_state(
    s: Seq<SubmissionView>,
    round: u64,
    bot: Seq<char>,
    now: Timestamp,
) -> Seq<SubmissionView> {
    if round_has_bot(s, round, bot) {
        s
    } else {
        s.push(SubmissionView { round, bot, time: now })
    }
}

/// Whether `record_submission(round, bot, _)` creates a new record.
pub open spec fn record_is_new(s: Seq<SubmissionView>, round: u64, bot: Seq<char>) -> bool {
    !round_has_bot(s, round, bot)
}

/// The rank that `record_submission(round, bot, _)` answers: the
/// number of distinct bots that arrived for `round` strictly before
/// `bot`'s own (kept or newly created) record.
pub open spec fn record_rank(s: Seq<SubmissionView>, round: u64, bot: Seq<char>) -> int {
    if round_has_bot(s, round, bot) {
        round_bots(s.take(flat_index_of(s, round, bot)), round).len() as int
    } else {
        round_bots(s, round).len() as int
    }
}

/// Appending one arrival extends the round's arrival list by exactly
/// that bot, and leaves every other round's list unchanged.
proof fn lemma_round_bots_push(s: Seq<SubmissionView>, e: SubmissionView, round: u64)
    ensures
        e.round == round ==> round_bots(s.push(e), round) == round_bots(s, round).push(e.bot),
        e.round != round ==> round_bots(s.push(e), round) == round_bots(s, round),
{
    assert(s.push(e).drop_last() =~= s);
    assert(s.push(e).last() == e);
}

/// The arrival entry at a flat index `i` for its round `round` sits in
/// the round's arrival list exactly at the position counted by the
/// prefix before `i`.
proof fn lemma_round_bots_index(s: Seq<SubmissionView>, i: int, round: u64)
    requires
        0 <= i < s.len(),
        s[i].round == round,
    ensures
        round_bots(s.take(i), round).len() < round_bots(s, round).len(),
        round_bots(s, round)[round_bots(s.take(i), round).len() as int] == s[i].bot,
    decreases s.len(),
{
    if i == s.len() - 1 {
        assert(s.take(i) =~= s.drop_last());
        assert(s.last() == s[i]);
    } else {
        let s0 = s.drop_last();
        assert(s.take(i) =~= s0.take(i));
        assert(s0[i] == s[i]);
        lemma_round_bots_index(s0, i, round);
    }
}

/// Consistency law of the two stored shapes: a bot has a recorded
/// submission for a round iff it appears in the round's arrival list,
/// so the set of addresses with a submission record for a round
/// equals the set of addresses the arrival order ranks.
pub proof fn lemma_round_bots_contains(s: Seq<SubmissionView>, round: u64, bot: Seq<char>)
    ensures
        round_has_bot(s, round, bot) <==> round_bots(s, round).contains(bot),
    decreases s.len(),
{
    if s.len() > 0 {
        let s0 = s.drop_last();
        lemma_round_bots_contains(s0, round, bot);
        if round_has_bot(s, round, bot) {
            let i = choose|i: int| 0 <= i < s.len() && s[i].round == round && s[i].bot == bot;
            if i < s.len() - 1 {
                assert(s0[i] == s[i]);
                assert(round_has_bot(s0, round, bot));
                let k = choose|k: int|
                    0 <= k < round_bots(s0, round).len() && round_bots(s0, round)[k] == bot;
                if s.last().round == round {
                    assert(round_bots(s, round)[k] == bot);
                } else {
                    assert(round_bots(s, round)[k] == bot);
                }
            } else {
                assert(s.last() == s[i]);
                assert(round_bots(s, round).last() == bot);
            }
        }
        if round_bots(s, round).contains(bot) {
            let k = choose|k: int|
                0 <= k < round_bots(s, round).len() && round_bots(s, round)[k] == bot;
            if s.last().round == round {
                if k < round_bots(s0, round).len() {
                    assert(round_bots(s0, round)[k] == bot);
                    let i = choose|i: int|
                        0 <= i < s0.len() && s0[i].round == round && s0[i].bot == bot;
                    assert(s[i] == s0[i]);
                } else {
                    assert(s.last().bot == bot);
                    assert(s[s.len() - 1].round == round && s[s.len() - 1].bot == bot);
                }
            } else {
                assert(round_bots(s0, round)[k] == bot);
                let i = choose|i: int|
                    0 <= i < s0.len() && s0[i].round == round && s0[i].bot == bot;
                assert(s[i] == s0[i]);
            }
        }
    }
}

/// Distinctness law of the arrival order: in a well-formed tracker,
/// each index of a round's arrival list names a distinct address.
pub proof fn lemma_round_bots_distinct(s: Seq<SubmissionView>, round: u64)
    requires
        tracker_wf(s),
    ensures
        round_bots(s, round).no_duplicates(),
    decreases s.len(),
{
    if s.len() > 0 {
        let s0 = s.drop_last();
        assert(tracker_wf(s0)) by {
            assert(forall|i: int| 0 <= i < s0.len() ==> s0[i] == s[i]);
        }
        lemma_round_bots_distinct(s0, round);
        if s.last().round == round {
            let rb0 = round_bots(s0, round);
            assert(!rb0.contains(s.last().bot)) by {
                if rb0.contains(s.last().bot) {
                    lemma_round_bots_contains(s0, round, s.last().bot);
                    let i = choose|i: int|
                        0 <= i < s0.len() && s0[i].round == round && s0[i].bot == s.last().bot;
                    assert(s[i] == s0[i]);
                    assert(!(s[i].round == s[s.len() - 1].round && s[i].bot == s[s.len()
                        - 1].bot));
                }
            }
            assert forall|i: int, j: int|
                0 <= i < j < round_bots(s, round).len() implies round_bots(s, round)[i]
                != round_bots(s, round)[j] by {
                if j < rb0.len() {
                    assert(rb0[i] != rb0[j]);
                } else {
                    assert(rb0.contains(rb0[i]));
                }
            }
        }
    }
}

/// Durable record of every (round, bot) submission together with a
/// per-round arrival order: the authoritative "who was Nth to submit
/// round R" store.
///
/// Its view is the flat list of arrivals in the order the ledger
/// processed them; [`round_bots`] derives each round's gap-free,
/// 0-indexed arrival list from it.
pub struct SubmissionTracker {
    entries: Vec<OrderedSubmission>,
}

impl View for SubmissionTracker {
    type V = Seq<SubmissionView>;

    closed spec fn view(&self) -> Seq<SubmissionView> {
        self.entries@.map_values(|e: OrderedSubmission| e@)
    }
}

impl SubmissionTracker {
    /// Well-formedness: at most one record per (round, bot) pair.
    pub open spec fn wf(self) -> bool {
        tracker_wf(self@)
    }

    /// An empty tracker with no recorded submissions.
    pub fn new() -> (t: Self)
        ensures
            t.wf(),
            t@ == Seq::<SubmissionView>::empty(),
    {
        let t = SubmissionTracker { entries: Vec::new() };
        proof {
            assert(t@ =~= Seq::<SubmissionView>::empty());
        }
        t
    }

    /// Record one inbound submission of `round` by `bot`, received at
    /// `now`, and assign or look up the bot's 0-based arrival rank.
    ///
    /// A first submission appends the record and returns the next free
    /// rank with `is_new` set; a re-submission is an idempotent no-op
    /// that returns the existing rank. Arrival order is call order
    /// into this operation alone; the `now` values have no influence
    /// on ranks.
    pub fn record_submission(&mut self, round: u64, bot: &String, now: Timestamp) -> (r:
        SubmissionOutcome)
        requires
            old(self).wf(),
        ensures
            final(self).wf(),
            final(self)@ == record_state(old(self)@, round, bot@, now),
            r.is_new == record_is_new(old(self)@, round, bot@),
            r.rank as int == record_rank(old(self)@, round, bot@),
            r.rank < round_bots(final(self)@, round).len(),
            round_bots(final(self)@, round)[r.rank as int] == bot@,
    {
        let ghost s = self@;
        let n = self.entries.len();
        let mut i: usize = 0;
        let mut rank: usize = 0;
        while i < n
            invariant
                self.wf(),
                s == self@,
                n == self.entries@.len(),
                i <= n,
                rank <= i,
                rank as int == round_bots(s.take(i as int), round).len(),
                forall|j: int| 0 <= j < i ==> !(s[j].round == round && s[j].bot == bot@),
            decreases n - i,
        {
            proof {
                assert(s.take(i as int + 1) =~= s.take(i as int).push(s[i as int]));
                lemma_round_bots_push(s.take(i as int), s[i as int], round);
            }
            if self.entries[i].round == round {
                if *bot == self.entries[i].bot {
                    proof {
                        assert(round_has_bot(s, round, bot@));
                        let k = flat_index_of(s, round, bot@);
                        if k < i as int {
                            assert(!(s[k].round == round && s[k].bot == bot@));
                        } else if (i as int) < k {
                            assert(!(s[i as int].round == s[k].round && s[i as int].bot
                                == s[k].bot));
                        }
                        assert(k == i as int);
                        lemma_round_bots_index(s, i as int, round);
                    }
                    return SubmissionOutcome { rank, is_new: false };
                }
                rank = rank + 1;
            }
            i += 1;
        }
        proof {
            assert(s.take(n as int) =~= s);
            assert(!round_has_bot(s, round, bot@));
        }
        let entry = OrderedSubmission { round, bot: bot.clone(), time: now };
        proof {
            assert(entry@ == SubmissionView { round, bot: bot@, time: now });
        }
        self.entries.push(entry);
        proof {
            assert(self@ =~= s.push(entry@));
            lemma_round_bots_push(s, entry@, round);
            assert(forall|j: int|
                0 <= j < s.len() ==> !(s[j].round == round && s[j].bot == bot@));
            assert forall|i1: int, j1: int| 0 <= i1 < j1 < self@.len() implies !(self@[i1].round
                == self@[j1].round && self@[i1].bot == self@[j1].bot) by {
                if j1 < s.len() {
                    assert(!(s[i1].round == s[j1].round && s[i1].bot == s[j1].bot));
                } else {
                    assert(!(s[i1].round == round && s[i1].bot == bot@));
                }
            }
        }
        SubmissionOutcome { rank, is_new: true }
    }

    /// Look up the arrival rank of `bot` for `round`, without
    /// mutation: `NotFound` if the bot never submitted the round.
    pub fn rank_of(&self, round: u64, bot: &String) -> (r: Result<usize, LedgerError>)
        requires
            self.wf(),
        ensures
            match r {
                Ok(k) => {
                    &&& round_has_bot(self@, round, bot@)
                    &&& k as int == record_rank(self@, round, bot@)
                    &&& k < round_bots(self@, round).len()
                    &&& round_bots(self@, round)[k as int] == bot@
                },
                Err(e) => !round_has_bot(self@, round, bot@) && e == LedgerError::NotFound,
            },
    {
        let ghost s = self@;
        let n = self.entries.len();
        let mut i: usize = 0;
        let mut rank: usize = 0;
        while i < n
            invariant
                self.wf(),
                s == self@,
                n == self.entries@.len(),
                i <= n,
                rank <= i,
                rank as int == round_bots(s.take(i as int), round).len(),
                forall|j: int| 0 <= j < i ==> !(s[j].round == round && s[j].bot == bot@),
            decreases n - i,
        {
            proof {
                assert(s.take(i as int + 1) =~= s.take(i as int).push(s[i as int]));
                lemma_round_bots_push(s.take(i as int), s[i as int], round);
            }
            if self.entries[i].round == round {
                if *bot == self.entries[i].bot {
                    proof {
                        assert(round_has_bot(s, round, bot@));
                        let k = flat_index_of(s, round, bot@);
                        if k < i as int {
                            assert(!(s[k].round == round && s[k].bot == bot@));
                        } else if (i as int) < k {
                            assert(!(s[i as int].round == s[k].round && s[i as int].bot
                                == s[k].bot));
                        }
                        assert(k == i as int);
                        lemma_round_bots_index(s, i as int, round);
                    }
                    return Ok(rank);
                }
                rank = rank + 1;
            }
            i += 1;
        }
        proof {
            assert(s.take(n as int) =~= s);
        }
        Err(LedgerError::NotFound)
    }

    /// The recorded submission of `bot` for `round`, if any: the fast
    /// (round, bot) existence check of the store.
    pub fn get_submission(&self, round: u64, bot: &String) -> (r: Option<StoredSubmission>)
        requires
            self.wf(),
        ensures
            match r {
                Some(sub) => round_has_bot(self@, round, bot@) && sub.time == submission_time_of(
                    self@,
                    round,
                    bot@,
                ),
                None => !round_has_bot(self@, round, bot@),
            },
    {
        let ghost s = self@;
        let n = self.entries.len();
        let mut i: usize = 0;
        while i < n
            invariant
                self.wf(),
                s == self@,
                n == self.entries@.len(),
                i <= n,
                forall|j: int| 0 <= j < i ==> !(s[j].round == round && s[j].bot == bot@),
            decreases n - i,
        {
            if self.entries[i].round == round {
                if *bot == self.entries[i].bot {
                    proof {
                        assert(s[i as int] == self.entries@[i as int]@);
                        assert(round_has_bot(s, round, bot@));
                        let k = flat_index_of(s, round, bot@);
                        if k < i as int {
                            assert(!(s[k].round == round && s[k].bot == bot@));
                        } else if (i as int) < k {
                            assert(!(s[i as int].round == s[k].round && s[i as int].bot
                                == s[k].bot));
                        }
                        assert(k == i as int);
                    }
                    return Some(StoredSubmission { time: self.entries[i].time });
                }
            }
            i += 1;
        }
        None
    }

    /// The full, gap-free arrival list of `round`: the bots that
    /// submitted it, in arrival order, indexed 0 to n-1. Used by the
    /// incentive mechanism to tier-rank payouts.
    pub fn submissions_for(&self, round: u64) -> (bots: Vec<String>)
        ensures
            bots@.map_values(|b: String| b@) == round_bots(self@, round),
    {
        let ghost s = self@;
        let n = self.entries.len();
        let mut bots: Vec<String> = Vec::new();
        let mut i: usize = 0;
        proof {
            assert(bots@.map_values(|b: String| b@) =~= round_bots(s.take(0), round)) by {
                assert(s.take(0) =~= Seq::<SubmissionView>::empty());
            }
        }
        while i < n
            invariant
                s == self@,
                n == self.entries@.len(),
                i <= n,
                bots@.map_values(|b: String| b@) == round_bots(s.take(i as int), round),
            decreases n - i,
        {
            proof {
                assert(s.take(i as int + 1) =~= s.take(i as int).push(s[i as int]));
                lemma_round_bots_push(s.take(i as int), s[i as int], round);
            }
            if self.entries[i].round == round {
                let ghost before = bots@;
                bots.push(self.entries[i].bot.clone());
                proof {
                    assert(bots@.map_values(|b: String| b@) =~= before.map_values(
                        |b: String| b@,
                    ).push(s[i as int].bot));
                }
            }
            i += 1;
        }
        proof {
            assert(s.take(n as int) =~= s);
        }
        bots
    }
}

/// Arrival-order law: on a round nobody has submitted yet, three
/// distinct bots recorded in the order A, B, C receive the ranks 0, 1
/// and 2, each as a new record, whatever receipt times accompany them,
/// and the round's arrival list afterwards is exactly [A, B, C].
pub proof fn lemma_submission_order(
    s: Seq<SubmissionView>,
    round: u64,
    a: Seq<char>,
    b: Seq<char>,
    c: Seq<char>,
    ta: Timestamp,
    tb: Timestamp,
    tc: Timestamp,
)
    requires
        round_bots(s, round).len() == 0,
        a != b,
        a != c,
        b != c,
    ensures
        ({
            let s1 = record_state(s, round, a, ta);
            let s2 = record_state(s1, round, b, tb);
            let s3 = record_state(s2, round, c, tc);
            &&& record_is_new(s, round, a) && record_rank(s, round, a) == 0
            &&& record_is_new(s1, round, b) && record_rank(s1, round, b) == 1
            &&& record_is_new(s2, round, c) && record_rank(s2, round, c) == 2
            &&& round_bots(s3, round) == seq![a, b, c]
        }),
{
    lemma_round_bots_contains(s, round, a);
    let ea = SubmissionView { round, bot: a, time: ta };
    let s1 = record_state(s, round, a, ta);
    lemma_round_bots_push(s, ea, round);
    assert(round_bots(s1, round) =~= seq![a]);

    lemma_round_bots_contains(s1, round, b);
    assert(!round_bots(s1, round).contains(b)) by {
        if round_bots(s1, round).contains(b) {
            let k = choose|k: int|
                0 <= k < round_bots(s1, round).len() && round_bots(s1, round)[k] == b;
            assert(round_bots(s1, round)[k] == a);
        }
    }
    let eb = SubmissionView { round, bot: b, time: tb };
    let s2 = record_state(s1, round, b, tb);
    lemma_round_bots_push(s1, eb, round);
    assert(round_bots(s2, round) =~= seq![a, b]);

    lemma_round_bots_contains(s2, round, c);
    assert(!round_bots(s2, round).contains(c)) by {
        if round_bots(s2, round).contains(c) {
            let k = choose|k: int|
                0 <= k < round_bots(s2, round).len() && round_bots(s2, round)[k] == c;
        }
    }
    let ec = SubmissionView { round, bot: c, time: tc };
    let s3 = record_state(s2, round, c, tc);
    lemma_round_bots_push(s2, ec, round);
    assert(round_bots(s3, round) =~= seq![a, b, c]);
}

/// Re-submission law: once a bot's submission of a round is recorded,
/// recording it again changes nothing and answers the same rank with
/// `is_new` false. The ledger bumps a bot's lifetime counter only on
/// new records, so a re-submission leaves that counter alone as well.
pub proof fn lemma_resubmission_idempotent(
    s: Seq<SubmissionView>,
    round: u64,
    bot: Seq<char>,
    t1: Timestamp,
    t2: Timestamp,
)
    requires
        tracker_wf(s),
    ensures
        ({
            let s1 = record_state(s, round, bot, t1);
            &&& record_state(s1, round, bot, t2) == s1
            &&& !record_is_new(s1, round, bot)
            &&& record_rank(s1, round, bot) == record_rank(s, round, bot)
        }),
{
    let s1 = record_state(s, round, bot, t1);
    if round_has_bot(s, round, bot) {
        assert(s1 == s);
    } else {
        let e = SubmissionView { round, bot, time: t1 };
        assert(s1 == s.push(e));
        assert(s1[s.len() as int] == e);
        assert(round_has_bot(s1, round, bot));
        let k = flat_index_of(s1, round, bot);
        assert(0 <= k < s1.len() && s1[k].round == round && s1[k].bot == bot);
        if k < s.len() {
            assert(s[k] == s1[k]);
            assert(round_has_bot(s, round, bot));
        }
        assert(k == s.len());
        assert(s1.take(k) =~= s);
    }
}

} // verus!
