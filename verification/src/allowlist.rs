use vstd::prelude::*;

verus! {

spec fn listed(s: Seq<String>, a: Seq<char>) -> bool {
    exists|i: int| 0 <= i < s.len() && s[i]@ == a
}

spec fn listed_distinct(s: Seq<String>) -> bool {
    forall|i: int, j: int| 0 <= i < j < s.len() ==> s[i]@ != s[j]@
}

/// Presence-only membership set of bot addresses, consulted before a
/// submission is accepted. Managed externally; the ledger itself only
/// asks [`Allowlist::is_allowed`].
pub struct Allowlist {
    entries: Vec<String>,
}

impl View for Allowlist {
    type V = Set<Seq<char>>;

    closed spec fn view(&self) -> Set<Seq<char>> {
        Set::new(|a: Seq<char>| listed(self.entries@, a))
    }
}

impl Allowlist {
    /// Internal consistency: each address is listed at most once.
    pub closed spec fn wf(self) -> bool {
        listed_distinct(self.entries@)
    }

    /// An empty allowlist that admits nobody.
    pub fn new() -> (l: Self)
        ensures
            l.wf(),
            l@ == Set::<Seq<char>>::empty(),
    {
        let l = Allowlist { entries: Vec::new() };
        proof {
            assert(l@ =~= Set::<Seq<char>>::empty());
        }
        l
    }

    /// True iff `address` is a member of the allowlist.
    pub fn is_allowed(&self, address: &String) -> (r: bool)
        ensures
            r == self@.contains(address@),
    {
        let n = self.entries.len();
        let mut i: usize = 0;
        while i < n
            invariant
                n == self.entries@.len(),
                i <= n,
                forall|j: int| 0 <= j < i ==> self.entries@[j]@ != address@,
            decreases n - i,
        {
            if *address == self.entries[i] {
                return true;
            }
            i += 1;
        }
        false
    }

    /// Admit `address`: a no-op if it is already a member.
    pub fn add(&mut self, address: &String)
        requires
            old(self).wf(),
        ensures
            final(self).wf(),
            final(self)@ == old(self)@.insert(address@),
    {
        if self.is_allowed(address) {
            proof {
                assert(self@ =~= self@.insert(address@));
            }
            return ;
        }
        let ghost s = self.entries@;
        self.entries.push(address.clone());
        proof {
            assert forall|a: Seq<char>| listed(self.entries@, a) <==> (listed(s, a) || a
                == address@) by {
                if listed(s, a) {
                    let i = choose|i: int| 0 <= i < s.len() && s[i]@ == a;
                    assert(self.entries@[i]@ == a);
                }
                if a == address@ {
                    assert(self.entries@[s.len() as int]@ == a);
                }
                if listed(self.entries@, a) {
                    let i = choose|i: int| 0 <= i < self.entries@.len() && self.entries@[i]@ == a;
                    if i < s.len() {
                        assert(s[i]@ == a);
                    }
                }
            }
            assert(self@ =~= old(self)@.insert(address@));
        }
    }

    /// Expel `address`: a no-op if it is not a member.
    pub fn remove(&mut self, address: &String)
        requires
            old(self).wf(),
        ensures
            final(self).wf(),
            final(self)@ == old(self)@.remove(address@),
    {
        let ghost s = self.entries@;
        let n = self.entries.len();
        let mut i: usize = 0;
        while i < n
            invariant
                *self == *old(self),
                self.wf(),
                s == self.entries@,
                n == self.entries@.len(),
                i <= n,
                forall|j: int| 0 <= j < i ==> s[j]@ != address@,
            decreases n - i,
        {
            if *address == self.entries[i] {
                self.entries.remove(i);
                proof {
                    let s2 = self.entries@;
                    assert(s2 =~= s.subrange(0, i as int) + s.subrange(i as int + 1, s.len() as int));
                    assert forall|a: Seq<char>| listed(s2, a) <==> (listed(s, a) && a != address@) by {
                        if listed(s2, a) {
                            let k = choose|k: int| 0 <= k < s2.len() && s2[k]@ == a;
                            if k < i as int {
                                assert(s[k]@ == a);
                                assert(s[k]@ != s[i as int]@);
                            } else {
                                assert(s2[k] == s[k + 1]);
                                assert(s[k + 1]@ == a);
                                assert(s[i as int]@ != s[k + 1]@);
                            }
                        }
                        if listed(s, a) && a != address@ {
                            let k = choose|k: int| 0 <= k < s.len() && s[k]@ == a;
                            if k < i as int {
                                assert(s2[k]@ == a);
                            } else if k > i as int {
                                assert(s2[k - 1] == s[k]);
                                assert(s2[k - 1]@ == a);
                            }
                        }
                    }
                    assert forall|a: Seq<char>| self@.contains(a) == old(self)@.remove(
                        address@,
                    ).contains(a) by {
                        assert(listed(s2, a) <==> (listed(s, a) && a != address@));
                    }
                    assert(self@ =~= old(self)@.remove(address@));
                    assert forall|i1: int, j1: int| 0 <= i1 < j1 < s2.len() implies s2[i1]@
                        != s2[j1]@ by {
                        let o1: int = if i1 < i as int {
                            i1
                        } else {
                            i1 + 1
                        };
                        let o2: int = if j1 < i as int {
                            j1
                        } else {
                            j1 + 1
                        };
                        assert(s2[i1] == s[o1]);
                        assert(s2[j1] == s[o2]);
                        assert(s[o1]@ != s[o2]@);
                    }
                }
                return ;
            }
            i += 1;
        }
        proof {
            assert(!listed(s, address@));
            assert forall|a: Seq<char>| self@.contains(a) == old(self)@.remove(address@).contains(
                a,
            ) by {
                if a == address@ {
                    assert(!listed(s, a));
                }
            }
            assert(self@ =~= old(self)@.remove(address@));
        }
    }
}

} // verus!
