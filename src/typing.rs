use vstd::prelude::*;

verus! {

/// Whether a typing signal given at `since` is still shown at `now`, for a
/// display window of `window`. A signal stamped after `now` counts as fresh.
pub open spec fn is_fresh(since: u64, now: u64, window: u64) -> bool {
    (if now >= since { now - since } else { 0 }) < window
}

/// The users of `m` whose signal is still shown at `now`.
pub open spec fn fresh_users(m: Map<Seq<char>, u64>, now: u64, window: u64) -> Set<Seq<char>> {
    Set::new(|u: Seq<char>| m.contains_key(u) && is_fresh(m[u], now, window))
}

/// `r` names each user of `users` once, and no one else.
pub open spec fn lists_exactly(r: Seq<String>, users: Set<Seq<char>>) -> bool {
    &&& forall|i: int, j: int| 0 <= i < r.len() && 0 <= j < r.len() && i != j ==> (#[trigger] r[i])@ != (#[trigger] r[j])@
    &&& forall|i: int| 0 <= i < r.len() ==> users.contains((#[trigger] r[i])@)
    &&& forall|u: Seq<char>| #[trigger] users.contains(u) ==> exists|i: int| 0 <= i < r.len() && (#[trigger] r[i])@ == u
}

spec fn has_name(s: Seq<(String, u64)>, u: Seq<char>) -> bool {
    exists|i: int| 0 <= i < s.len() && (#[trigger] s[i]).0@ == u
}

spec fn names_unique(s: Seq<(String, u64)>) -> bool {
    forall|i: int, j: int| 0 <= i < s.len() && 0 <= j < s.len() && i != j ==> (#[trigger] s[i]).0@ != (#[trigger] s[j]).0@
}

spec fn index_of_name(s: Seq<(String, u64)>, u: Seq<char>) -> int {
    choose|i: int| 0 <= i < s.len() && (#[trigger] s[i]).0@ == u
}

proof fn lemma_index_of_name(s: Seq<(String, u64)>, u: Seq<char>, i: int)
    requires
        names_unique(s),
        0 <= i < s.len(),
        s[i].0@ == u,
    ensures
        index_of_name(s, u) == i,
{
    let j = index_of_name(s, u);
    assert(0 <= j < s.len() && s[j].0@ == u);
}

/// Who is typing: each user mapped to the time of their latest "typing"
/// signal. Entries expire lazily, when the active users are asked for.
pub struct TypingTracker {
    entries: Vec<(String, u64)>,
}

impl TypingTracker {
    /// No user is listed twice.
    pub closed spec fn wf(&self) -> bool {
        names_unique(self.entries@)
    }

    /// The tracker as a map from user name to the time of their signal.
    pub closed spec fn view(&self) -> Map<Seq<char>, u64> {
        Map::new(
            |u: Seq<char>| has_name(self.entries@, u),
            |u: Seq<char>| self.entries@[index_of_name(self.entries@, u)].1,
        )
    }

    /// A tracker in which nobody is typing.
    pub fn new() -> (r: TypingTracker)
        ensures
            r.wf(),
            r@ == Map::<Seq<char>, u64>::empty(),
    {
        let r = TypingTracker { entries: Vec::new() };
        assert(r@ =~= Map::<Seq<char>, u64>::empty());
        r
    }

    fn find(&self, username: &String) -> (r: Option<usize>)
        ensures
            r is Some ==> r->Some_0 < self.entries@.len() && self.entries@[r->Some_0 as int].0@ == username@,
            r is None ==> !has_name(self.entries@, username@),
    {
        let mut i: usize = 0;
        while i < self.entries.len()
            invariant
                i <= self.entries@.len(),
                forall|j: int| 0 <= j < i ==> (#[trigger] self.entries@[j]).0@ != username@,
            decreases self.entries@.len() - i,
        {
            if self.entries[i].0 == *username {
                return Some(i);
            }
            i = i + 1;
        }
        None
    }

    /// Records a typing signal from `username` at time `now`: a user who
    /// starts typing is listed with that time, one who stops is removed.
    pub fn set_typing(&mut self, username: String, is_typing: bool, now: u64)
        requires
            old(self).wf(),
        ensures
            final(self).wf(),
            is_typing ==> final(self)@ == old(self)@.insert(username@, now),
            !is_typing ==> final(self)@ == old(self)@.remove(username@),
    {
        let ghost s = self.entries@;
        let ghost u = username@;
        match self.find(&username) {
            Some(idx) => {
                let ghost ix = idx as int;
                if is_typing {
                    self.entries.set(idx, (username, now));
                    let ghost t = self.entries@;
                    proof {
                        assert forall|j: int| 0 <= j < t.len() && j != ix implies #[trigger] t[j] == s[j] by {};
                        assert(names_unique(t)) by {
                            assert forall|i: int, j: int| 0 <= i < t.len() && 0 <= j < t.len() && i != j implies
                                (#[trigger] t[i]).0@ != (#[trigger] t[j]).0@ by {
                                assert(s[i].0@ != s[j].0@);
                                assert(t[i].0@ == s[i].0@ && t[j].0@ == s[j].0@);
                            };
                        };
                        assert forall|k: Seq<char>| has_name(t, k) <==> has_name(s, k) by {
                            if has_name(s, k) {
                                let i = choose|i: int| 0 <= i < s.len() && (#[trigger] s[i]).0@ == k;
                                assert(t[i].0@ == s[i].0@);
                            }
                            if has_name(t, k) {
                                let i = choose|i: int| 0 <= i < t.len() && (#[trigger] t[i]).0@ == k;
                                assert(t[i].0@ == s[i].0@);
                            }
                        };
                        lemma_index_of_name(t, u, ix);
                        assert forall|k: Seq<char>| has_name(s, k) && k != u implies t[index_of_name(t, k)].1 == s[index_of_name(s, k)].1 by {
                            let i = index_of_name(s, k);
                            assert(0 <= i < s.len() && s[i].0@ == k);
                            assert(i != ix);
                            lemma_index_of_name(t, k, i);
                        };
                    }
                    assert(self@ =~= old(self)@.insert(u, now));
                } else {
                    self.entries.remove(idx);
                    let ghost t = self.entries@;
                    proof {
                        assert forall|j: int| 0 <= j < t.len() implies #[trigger] t[j] == (if j < ix { s[j] } else { s[j + 1] }) by {};
                        assert(names_unique(t)) by {
                            assert forall|i: int, j: int| 0 <= i < t.len() && 0 <= j < t.len() && i != j implies
                                (#[trigger] t[i]).0@ != (#[trigger] t[j]).0@ by {
                                let i2 = if i < ix { i } else { i + 1 };
                                let j2 = if j < ix { j } else { j + 1 };
                                assert(s[i2].0@ != s[j2].0@);
                            };
                        };
                        assert forall|k: Seq<char>| has_name(t, k) <==> has_name(s, k) && k != u by {
                            if has_name(s, k) && k != u {
                                let i = choose|i: int| 0 <= i < s.len() && (#[trigger] s[i]).0@ == k;
                                assert(i != ix);
                                let i2 = if i < ix { i } else { i - 1 };
                                assert(t[i2] == s[i]);
                            }
                            if has_name(t, k) {
                                let i = choose|i: int| 0 <= i < t.len() && (#[trigger] t[i]).0@ == k;
                                let i2 = if i < ix { i } else { i + 1 };
                                assert(s[i2] == t[i]);
                                assert(i2 != ix);
                            }
                        };
                        assert forall|k: Seq<char>| has_name(t, k) implies t[index_of_name(t, k)].1 == s[index_of_name(s, k)].1 by {
                            let i = index_of_name(t, k);
                            assert(0 <= i < t.len() && t[i].0@ == k);
                            let i2 = if i < ix { i } else { i + 1 };
                            assert(s[i2] == t[i]);
                            lemma_index_of_name(s, k, i2);
                        };
                    }
                    assert(self@ =~= old(self)@.remove(u));
                }
            },
            None => {
                if is_typing {
                    self.entries.push((username, now));
                    let ghost t = self.entries@;
                    proof {
                        let n = s.len() as int;
                        assert(names_unique(t)) by {
                            assert forall|i: int, j: int| 0 <= i < t.len() && 0 <= j < t.len() && i != j implies
                                (#[trigger] t[i]).0@ != (#[trigger] t[j]).0@ by {
                                if i == n {
                                    assert(t[j] == s[j]);
                                } else if j == n {
                                    assert(t[i] == s[i]);
                                } else {
                                    assert(t[i] == s[i] && t[j] == s[j]);
                                }
                            };
                        };
                        lemma_index_of_name(t, u, n);
                        assert forall|k: Seq<char>| has_name(t, k) <==> has_name(s, k) || k == u by {
                            if has_name(s, k) {
                                let i = choose|i: int| 0 <= i < s.len() && (#[trigger] s[i]).0@ == k;
                                assert(t[i] == s[i]);
                            }
                            if has_name(t, k) && k != u {
                                let i = choose|i: int| 0 <= i < t.len() && (#[trigger] t[i]).0@ == k;
                                assert(t[i] == s[i]);
                            }
                            if k == u {
                                assert(t[n].0@ == u);
                            }
                        };
                        assert forall|k: Seq<char>| has_name(s, k) implies t[index_of_name(t, k)].1 == s[index_of_name(s, k)].1 by {
                            let i = index_of_name(s, k);
                            assert(0 <= i < s.len() && s[i].0@ == k);
                            assert(t[i] == s[i]);
                            lemma_index_of_name(t, k, i);
                        };
                    }
                    assert(self@ =~= old(self)@.insert(u, now));
                } else {
                    assert(self@ =~= old(self)@.remove(u));
                }
            },
        }
    }
}

impl TypingTracker {
    /// The users whose signal is still shown at `now`, for a display window of
    /// `window`. Every other user is dropped from the tracker.
    pub fn active_users(&mut self, now: u64, window: u64) -> (r: Vec<String>)
        requires
            old(self).wf(),
        ensures
            final(self).wf(),
            final(self)@ == old(self)@.restrict(fresh_users(old(self)@, now, window)),
            lists_exactly(r@, fresh_users(old(self)@, now, window)),
    {
        let ghost s = self.entries@;
        let ghost m = self@;
        let ghost fresh = fresh_users(m, now, window);
        let mut kept: Vec<(String, u64)> = Vec::new();
        let mut names: Vec<String> = Vec::new();
        let mut i: usize = 0;
        while i < self.entries.len()
            invariant
                s == self.entries@,
                names_unique(s),
                i <= s.len(),
                kept@.len() == names@.len(),
                forall|a: int| 0 <= a < names@.len() ==> (#[trigger] names@[a])@ == kept@[a].0@,
                forall|a: int| 0 <= a < kept@.len() ==> exists|b: int| 0 <= b < i && (#[trigger] kept@[a]) == (#[trigger] s[b]) && is_fresh(s[b].1, now, window),
                names_unique(kept@),
                forall|b: int| 0 <= b < i && is_fresh((#[trigger] s[b]).1, now, window) ==> has_name(kept@, s[b].0@),
            decreases s.len() - i,
        {
            let since = self.entries[i].1;
            let fresh_now = if now >= since { now - since < window } else { 0 < window };
            if fresh_now {
                let name = self.entries[i].0.clone();
                let ghost k0 = kept@;
                kept.push((name.clone(), since));
                names.push(name);
                proof {
                    let n = k0.len() as int;
                    let bi = i as int;
                    assert(kept@[n].0@ == s[bi].0@ && kept@[n].1 == s[bi].1);
                    assert forall|a: int| 0 <= a < kept@.len() implies exists|b: int| 0 <= b < i + 1 && (#[trigger] kept@[a]) == (#[trigger] s[b]) && is_fresh(s[b].1, now, window) by {
                        if a < n {
                            assert(kept@[a] == k0[a]);
                        } else {
                            assert(kept@[a] == s[bi]);
                        }
                    };
                    assert forall|a: int, c: int| 0 <= a < kept@.len() && 0 <= c < kept@.len() && a != c implies
                        (#[trigger] kept@[a]).0@ != (#[trigger] kept@[c]).0@ by {
                        if a < n && c < n {
                            assert(kept@[a] == k0[a] && kept@[c] == k0[c]);
                        } else if a < n {
                            assert(kept@[a] == k0[a]);
                            let b = choose|b: int| 0 <= b < i && (#[trigger] k0[a]) == (#[trigger] s[b]) && is_fresh(s[b].1, now, window);
                            assert(s[b].0@ != s[bi].0@);
                        } else if c < n {
                            assert(kept@[c] == k0[c]);
                            let b = choose|b: int| 0 <= b < i && (#[trigger] k0[c]) == (#[trigger] s[b]) && is_fresh(s[b].1, now, window);
                            assert(s[b].0@ != s[bi].0@);
                        }
                    };
                    assert forall|b: int| 0 <= b < i + 1 && is_fresh((#[trigger] s[b]).1, now, window) implies has_name(kept@, s[b].0@) by {
                        if b < i {
                            let a = choose|a: int| 0 <= a < k0.len() && (#[trigger] k0[a]).0@ == s[b].0@;
                            assert(kept@[a] == k0[a]);
                        } else {
                            assert(kept@[n].0@ == s[b].0@);
                        }
                    };
                }
            }
            i = i + 1;
        }
        let ghost t = kept@;
        proof {
            assert forall|k: Seq<char>| has_name(t, k) <==> has_name(s, k) && fresh.contains(k) by {
                if has_name(t, k) {
                    let a = choose|a: int| 0 <= a < t.len() && (#[trigger] t[a]).0@ == k;
                    let b = choose|b: int| 0 <= b < s.len() && (#[trigger] t[a]) == (#[trigger] s[b]) && is_fresh(s[b].1, now, window);
                    lemma_index_of_name(s, k, b);
                }
                if has_name(s, k) && fresh.contains(k) {
                    let b = index_of_name(s, k);
                    assert(0 <= b < s.len() && s[b].0@ == k);
                }
            };
            assert forall|k: Seq<char>| has_name(t, k) implies t[index_of_name(t, k)].1 == s[index_of_name(s, k)].1 by {
                let a = index_of_name(t, k);
                assert(0 <= a < t.len() && t[a].0@ == k);
                let b = choose|b: int| 0 <= b < s.len() && (#[trigger] t[a]) == (#[trigger] s[b]) && is_fresh(s[b].1, now, window);
                lemma_index_of_name(s, k, b);
            };
            assert forall|a: int| 0 <= a < names@.len() implies fresh.contains((#[trigger] names@[a])@) by {
                assert(names@[a]@ == t[a].0@);
                assert(has_name(t, t[a].0@));
            };
            assert forall|u: Seq<char>| #[trigger] fresh.contains(u) implies exists|a: int| 0 <= a < names@.len() && (#[trigger] names@[a])@ == u by {
                let b = index_of_name(s, u);
                assert(0 <= b < s.len() && s[b].0@ == u);
                let a = choose|a: int| 0 <= a < t.len() && (#[trigger] t[a]).0@ == u;
                assert(names@[a]@ == u);
            };
            assert forall|a: int, c: int| 0 <= a < names@.len() && 0 <= c < names@.len() && a != c implies (#[trigger] names@[a])@ != (#[trigger] names@[c])@ by {
                assert(t[a].0@ != t[c].0@);
            };
        }
        self.entries = kept;
        assert(self@ =~= m.restrict(fresh));
        names
    }
}

/// A user who signals typing at `since` is still shown just before the window
/// closes, and is no longer shown, nor kept, once it has passed.
pub proof fn lemma_typing_expiry(m: Map<Seq<char>, u64>, user: Seq<char>, since: u64, window: u64, eps: u64)
    requires
        0 < eps <= window,
        since + window + eps <= u64::MAX,
    ensures
        fresh_users(m.insert(user, since), (since + window - eps) as u64, window).contains(user),
        !fresh_users(m.insert(user, since), (since + window + eps) as u64, window).contains(user),
        !m.insert(user, since).restrict(
            fresh_users(m.insert(user, since), (since + window + eps) as u64, window),
        ).contains_key(user),
{
}

} // verus!
