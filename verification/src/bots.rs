use vstd::prelude::*;

use crate::errors::LedgerError;

verus! {

/// A known bot, as stored: keyed by its address in [`BotRegistry`],
/// so the address is not repeated here.
#[derive(Debug, PartialEq, Eq)]
pub struct Bot {
    /// Display name chosen at registration.
    pub moniker: String,
    /// Lifetime number of rounds this bot contributed: bumped once per
    /// round the bot ever successfully participated in, never
    /// decremented.
    pub rounds_added: u64,
}

/// The mathematical value of a stored bot record.
pub ghost struct BotData {
    pub moniker: Seq<char>,
    pub rounds_added: u64,
}

impl View for Bot {
    type V = BotData;

    open spec fn view(&self) -> BotData {
        BotData { moniker: self.moniker@, rounds_added: self.rounds_added }
    }
}

/// A stored bot enriched for a read-side response with its address.
#[derive(Debug, PartialEq, Eq)]
pub struct QueriedBot {
    pub moniker: String,
    pub address: String,
    /// Lifetime number of rounds this bot contributed.
    pub rounds_added: u64,
}

impl QueriedBot {
    /// Enrich a stored bot record with its address.
    pub fn make(bot: Bot, address: String) -> (q: Self)
        ensures
            q.moniker@ == bot.moniker@,
            q.address@ == address@,
            q.rounds_added == bot.rounds_added,
    {
        QueriedBot { address, moniker: bot.moniker, rounds_added: bot.rounds_added }
    }
}

struct BotEntry {
    address: String,
    bot: Bot,
}

spec fn has_addr(s: Seq<BotEntry>, a: Seq<char>) -> bool {
    exists|i: int| 0 <= i < s.len() && s[i].address@ == a
}

spec fn bot_at(s: Seq<BotEntry>, a: Seq<char>) -> BotData {
    let i = choose|i: int| 0 <= i < s.len() && s[i].address@ == a;
    s[i].bot@
}

spec fn bots_map(s: Seq<BotEntry>) -> Map<Seq<char>, BotData> {
    Map::new(|a: Seq<char>| has_addr(s, a), |a: Seq<char>| bot_at(s, a))
}

spec fn addrs_distinct(s: Seq<BotEntry>) -> bool {
    forall|i: int, j: int| 0 <= i < j < s.len() ==> s[i].address@ != s[j].address@
}

/// The registry after `note_contribution(address, moniker)`: an
/// already-known bot keeps its moniker and its counter grows by one; an
/// unknown bot is created with the supplied moniker and a counter that
/// has just seen its first round.
pub open spec fn contribution_state(
    m: Map<Seq<char>, BotData>,
    address: Seq<char>,
    moniker: Seq<char>,
) -> Map<Seq<char>, BotData> {
    if m.contains_key(address) {
        m.insert(
            address,
            BotData {
                moniker: m[address].moniker,
                rounds_added: (m[address].rounds_added + 1) as u64,
            },
        )
    } else {
        m.insert(address, BotData { moniker, rounds_added: 1 })
    }
}

/// At a valid index, the map view holds exactly that entry's record.
proof fn lemma_bots_map_at(s: Seq<BotEntry>, i: int)
    requires
        addrs_distinct(s),
        0 <= i < s.len(),
    ensures
        bots_map(s).contains_key(s[i].address@),
        bots_map(s)[s[i].address@] == s[i].bot@,
{
    assert(has_addr(s, s[i].address@));
    let k = choose|k: int| 0 <= k < s.len() && s[k].address@ == s[i].address@;
    if k < i {
        assert(s[k].address@ != s[i].address@);
    } else if i < k {
        assert(s[i].address@ != s[k].address@);
    }
}

/// Appending an entry for a fresh address inserts exactly that record
/// into the map view.
proof fn lemma_bots_map_push(s: Seq<BotEntry>, e: BotEntry)
    requires
        addrs_distinct(s),
        !has_addr(s, e.address@),
    ensures
        bots_map(s.push(e)) == bots_map(s).insert(e.address@, e.bot@),
        addrs_distinct(s.push(e)),
{
    let s2 = s.push(e);
    assert forall|a: Seq<char>| has_addr(s2, a) <==> (has_addr(s, a) || a == e.address@) by {
        if has_addr(s, a) {
            let i = choose|i: int| 0 <= i < s.len() && s[i].address@ == a;
            assert(s2[i].address@ == a);
        }
        if a == e.address@ {
            assert(s2[s.len() as int].address@ == a);
        }
        if has_addr(s2, a) {
            let i = choose|i: int| 0 <= i < s2.len() && s2[i].address@ == a;
            if i < s.len() {
                assert(s[i].address@ == a);
            }
        }
    }
    assert forall|a: Seq<char>| has_addr(s, a) && a != e.address@ implies bot_at(s2, a) == bot_at(
        s,
        a,
    ) by {
        let i = choose|i: int| 0 <= i < s2.len() && s2[i].address@ == a;
        assert(s2[i].address@ == a);
        assert(i < s.len());
        assert(s[i].address@ == a);
        let k = choose|k: int| 0 <= k < s.len() && s[k].address@ == a;
        if i < k {
            assert(s[i].address@ != s[k].address@);
        } else if k < i {
            assert(s[k].address@ != s[i].address@);
        }
        assert(i == k);
    }
    assert(bot_at(s2, e.address@) == e.bot@) by {
        let i = choose|i: int| 0 <= i < s2.len() && s2[i].address@ == e.address@;
        assert(s2[s.len() as int].address@ == e.address@);
        if i < s.len() {
            assert(s[i].address@ == e.address@);
        }
    }
    assert(bots_map(s2) =~= bots_map(s).insert(e.address@, e.bot@));
}

/// Replacing the entry at a valid index by one with the same address
/// updates exactly that record in the map view.
proof fn lemma_bots_map_update(s: Seq<BotEntry>, i: int, e: BotEntry)
    requires
        addrs_distinct(s),
        0 <= i < s.len(),
        e.address@ == s[i].address@,
    ensures
        bots_map(s.update(i, e)) == bots_map(s).insert(s[i].address@, e.bot@),
        addrs_distinct(s.update(i, e)),
{
    let s2 = s.update(i, e);
    assert(forall|j: int| 0 <= j < s.len() ==> s2[j].address@ == s[j].address@);
    assert forall|a: Seq<char>| has_addr(s2, a) <==> has_addr(s, a) by {
        if has_addr(s, a) {
            let k = choose|k: int| 0 <= k < s.len() && s[k].address@ == a;
            assert(s2[k].address@ == a);
        }
        if has_addr(s2, a) {
            let k = choose|k: int| 0 <= k < s2.len() && s2[k].address@ == a;
            assert(s[k].address@ == a);
        }
    }
    assert forall|a: Seq<char>| has_addr(s, a) implies bot_at(s2, a) == bots_map(s).insert(
        s[i].address@,
        e.bot@,
    )[a] by {
        let k = choose|k: int| 0 <= k < s2.len() && s2[k].address@ == a;
        assert(s2[k].address@ == a);
        assert(s[k].address@ == a);
        if a == s[i].address@ {
            if k < i {
                assert(s[k].address@ != s[i].address@);
            } else if i < k {
                assert(s[i].address@ != s[k].address@);
            }
            assert(k == i);
        } else {
            assert(k != i);
            let k0 = choose|k0: int| 0 <= k0 < s.len() && s[k0].address@ == a;
            if k < k0 {
                assert(s[k].address@ != s[k0].address@);
            } else if k0 < k {
                assert(s[k0].address@ != s[k].address@);
            }
            assert(k == k0);
        }
    }
    assert(bots_map(s2) =~= bots_map(s).insert(s[i].address@, e.bot@));
}

/// Durable registry of each known bot's display name and lifetime
/// count of contributed rounds, keyed by bot address.
pub struct BotRegistry {
    entries: Vec<BotEntry>,
}

impl View for BotRegistry {
    type V = Map<Seq<char>, BotData>;

    closed spec fn view(&self) -> Map<Seq<char>, BotData> {
        bots_map(self.entries@)
    }
}

impl BotRegistry {
    /// Well-formedness: one record per address.
    pub closed spec fn wf(self) -> bool {
        addrs_distinct(self.entries@)
    }

    /// An empty registry with no known bots.
    pub fn new() -> (r: Self)
        ensures
            r.wf(),
            r@ == Map::<Seq<char>, BotData>::empty(),
    {
        let r = BotRegistry { entries: Vec::new() };
        proof {
            assert(r@ =~= Map::<Seq<char>, BotData>::empty());
        }
        r
    }

    /// Note that `address` contributed a round it never contributed
    /// before: called exactly once per (bot, round) pair that
    /// [`crate::submissions::SubmissionTracker::record_submission`]
    /// reported as new. An unknown bot is created with `moniker`
    /// first; then its lifetime counter grows by exactly one. Returns
    /// the stored record after the bump.
    pub fn note_contribution(&mut self, address: &String, moniker: &String) -> (b: Bot)
        requires
            old(self).wf(),
            old(self)@.contains_key(address@) ==> old(self)@[address@].rounds_added < u64::MAX,
        ensures
            final(self).wf(),
            final(self)@ == contribution_state(old(self)@, address@, moniker@),
            final(self)@.contains_key(address@),
            b@ == final(self)@[address@],
    {
        let ghost s = self.entries@;
        let n = self.entries.len();
        let mut i: usize = 0;
        while i < n
            invariant
                *self == *old(self),
                self.wf(),
                s == self.entries@,
                n == self.entries@.len(),
                i <= n,
                old(self)@.contains_key(address@) ==> old(self)@[address@].rounds_added
                    < u64::MAX,
                forall|j: int| 0 <= j < i ==> s[j].address@ != address@,
            decreases n - i,
        {
            if *address == self.entries[i].address {
                proof {
                    lemma_bots_map_at(s, i as int);
                    assert(s[i as int].address@ == address@);
                    assert(old(self)@.contains_key(address@));
                    assert(old(self)@[address@] == s[i as int].bot@);
                }
                let count = self.entries[i].bot.rounds_added;
                let updated = BotEntry {
                    address: self.entries[i].address.clone(),
                    bot: Bot {
                        moniker: self.entries[i].bot.moniker.clone(),
                        rounds_added: count + 1,
                    },
                };
                proof {
                    lemma_bots_map_update(s, i as int, updated);
                }
                let answer = Bot {
                    moniker: updated.bot.moniker.clone(),
                    rounds_added: count + 1,
                };
                self.entries[i] = updated;
                proof {
                    assert(self.entries@ == s.update(i as int, updated));
                    assert(updated.bot@ == BotData {
                        moniker: old(self)@[address@].moniker,
                        rounds_added: (old(self)@[address@].rounds_added + 1) as u64,
                    });
                    assert(self@ == contribution_state(old(self)@, address@, moniker@));
                }
                return answer;
            }
            i += 1;
        }
        proof {
            assert(!has_addr(s, address@));
        }
        let created = BotEntry {
            address: address.clone(),
            bot: Bot { moniker: moniker.clone(), rounds_added: 1 },
        };
        proof {
            lemma_bots_map_push(s, created);
        }
        let answer = Bot { moniker: created.bot.moniker.clone(), rounds_added: 1 };
        self.entries.push(created);
        answer
    }

    /// Look a bot up by address: its record enriched with the
    /// address, or `NotFound` for an unknown bot.
    pub fn get(&self, address: &String) -> (r: Result<QueriedBot, LedgerError>)
        requires
            self.wf(),
        ensures
            match r {
                Ok(q) => {
                    &&& self@.contains_key(address@)
                    &&& q.address@ == address@
                    &&& q.moniker@ == self@[address@].moniker
                    &&& q.rounds_added == self@[address@].rounds_added
                },
                Err(e) => !self@.contains_key(address@) && e == LedgerError::NotFound,
            },
    {
        let ghost s = self.entries@;
        let n = self.entries.len();
        let mut i: usize = 0;
        while i < n
            invariant
                self.wf(),
                s == self.entries@,
                n == self.entries@.len(),
                i <= n,
                forall|j: int| 0 <= j < i ==> s[j].address@ != address@,
            decreases n - i,
        {
            if *address == self.entries[i].address {
                proof {
                    lemma_bots_map_at(s, i as int);
                }
                return Ok(
                    QueriedBot {
                        moniker: self.entries[i].bot.moniker.clone(),
                        address: address.clone(),
                        rounds_added: self.entries[i].bot.rounds_added,
                    },
                );
            }
            i += 1;
        }
        proof {
            assert(!has_addr(s, address@));
        }
        Err(LedgerError::NotFound)
    }
}

/// Monotonicity law of the registry: noting a contribution never
/// lowers any bot's lifetime counter, and never removes a bot.
pub proof fn lemma_contribution_monotonic(
    m: Map<Seq<char>, BotData>,
    address: Seq<char>,
    moniker: Seq<char>,
)
    requires
        forall|a: Seq<char>| m.contains_key(a) ==> (#[trigger] m[a]).rounds_added < u64::MAX,
    ensures
        forall|a: Seq<char>|
            m.contains_key(a) ==> #[trigger] contribution_state(m, address, moniker).contains_key(
                a,
            ) && m[a].rounds_added <= contribution_state(m, address, moniker)[a].rounds_added,
{
}

} // verus!
