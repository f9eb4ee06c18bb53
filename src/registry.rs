use vstd::prelude::*;

verus! {

/// How a frame arrived on a connection.
#[derive(Debug, Clone, Copy, PartialEq, Eq, Structural)]
pub enum FrameKind {
    Text,
    Binary,
    /// Ping, pong, close and the other control frames.
    Control,
}

/// Whether the relay passes a frame of this kind on to the other peers.
pub open spec fn is_relayed(kind: FrameKind) -> bool {
    kind is Text || kind is Binary
}

/// Whether some entry of `s` has id `k`.
pub open spec fn has_id<H>(s: Seq<(u64, H)>, k: u64) -> bool {
    exists|i: int| 0 <= i < s.len() && (#[trigger] s[i]).0 == k
}

/// No two entries of `s` share an id.
pub open spec fn ids_unique<H>(s: Seq<(u64, H)>) -> bool {
    forall|i: int, j: int| 0 <= i < s.len() && 0 <= j < s.len() && i != j ==> (#[trigger] s[i]).0 != (#[trigger] s[j]).0
}

/// `s` lists each connection of `m` once, with a clone of its handle, and
/// nothing else: a point-in-time copy of `m`, in no particular order.
pub open spec fn is_snapshot_of<H: Clone>(s: Seq<(u64, H)>, m: Map<u64, H>) -> bool {
    &&& ids_unique(s)
    &&& forall|i: int| 0 <= i < s.len() ==> m.contains_key((#[trigger] s[i]).0) && cloned(m[s[i].0], s[i].1)
    &&& forall|k: u64| #[trigger] m.contains_key(k) ==> has_id(s, k)
}

spec fn index_of<H>(s: Seq<(u64, H)>, k: u64) -> int {
    choose|i: int| 0 <= i < s.len() && (#[trigger] s[i]).0 == k
}

proof fn lemma_index_of<H>(s: Seq<(u64, H)>, k: u64, i: int)
    requires
        ids_unique(s),
        0 <= i < s.len(),
        s[i].0 == k,
    ensures
        index_of(s, k) == i,
{
    let j = index_of(s, k);
    assert(0 <= j < s.len() && s[j].0 == k);
}

/// The live connections of a relay: each connection id mapped to the handle
/// that writes to that connection.
pub struct ConnectionRegistry<H> {
    entries: Vec<(u64, H)>,
}

impl<H: Clone> ConnectionRegistry<H> {
    /// No connection id is listed twice.
    pub closed spec fn wf(&self) -> bool {
        ids_unique(self.entries@)
    }

    /// The registry as a map from connection id to handle.
    pub closed spec fn view(&self) -> Map<u64, H> {
        Map::new(|k: u64| has_id(self.entries@, k), |k: u64| self.entries@[index_of(self.entries@, k)].1)
    }

    /// An empty registry.
    pub fn new() -> (r: ConnectionRegistry<H>)
        ensures
            r@ == Map::<u64, H>::empty(),
            r.wf(),
    {
        let r = ConnectionRegistry { entries: Vec::new() };
        assert(r@ =~= Map::<u64, H>::empty());
        r
    }

    fn find(&self, id: u64) -> (r: Option<usize>)
        requires
            self.wf(),
        ensures
            r is Some ==> r->Some_0 < self.entries@.len() && self.entries@[r->Some_0 as int].0 == id,
            r is None ==> !has_id(self.entries@, id),
    {
        let mut i: usize = 0;
        while i < self.entries.len()
            invariant
                i <= self.entries@.len(),
                forall|j: int| 0 <= j < i ==> (#[trigger] self.entries@[j]).0 != id,
            decreases self.entries@.len() - i,
        {
            if self.entries[i].0 == id {
                return Some(i);
            }
            i = i + 1;
        }
        None
    }

    /// Whether connection `id` is live.
    pub fn contains(&self, id: u64) -> (r: bool)
        requires
            self.wf(),
        ensures
            r == self@.contains_key(id),
    {
        self.find(id).is_some()
    }

    /// The number of live connections.
    pub fn len(&self) -> (r: usize)
        requires
            self.wf(),
        ensures
            r as nat == self@.dom().len(),
    {
        proof {
            self.lemma_dom_len();
        }
        self.entries.len()
    }

    proof fn lemma_dom_len(&self)
        requires
            ids_unique(self.entries@),
        ensures
            self@.dom().len() == self.entries@.len(),
            self@.dom().finite(),
        decreases self.entries@.len(),
    {
        let s = self.entries@;
        let ids = s.map_values(|e: (u64, H)| e.0);
        assert(self@.dom() =~= ids.to_set()) by {
            assert forall|k: u64| self@.dom().contains(k) implies ids.to_set().contains(k) by {
                let i = choose|i: int| 0 <= i < s.len() && (#[trigger] s[i]).0 == k;
                assert(ids[i] == k);
            };
            assert forall|k: u64| ids.to_set().contains(k) implies self@.dom().contains(k) by {
                let i = choose|i: int| 0 <= i < ids.len() && ids[i] == k;
                assert(s[i].0 == k);
            };
        };
        assert(ids.no_duplicates()) by {
            assert forall|i: int, j: int| 0 <= i < ids.len() && 0 <= j < ids.len() && i != j implies ids[i] != ids[j] by {
                assert(s[i].0 != s[j].0);
            };
        };
        ids.unique_seq_to_set();
    }

    /// Adds connection `id` with its handle. A live id is never registered
    /// again.
    pub fn register(&mut self, id: u64, handle: H)
        requires
            old(self).wf(),
            !old(self)@.contains_key(id),
        ensures
            final(self).wf(),
            final(self)@ == old(self)@.insert(id, handle),
    {
        let ghost s = self.entries@;
        self.entries.push((id, handle));
        let ghost t = self.entries@;
        proof {
            assert(ids_unique(t)) by {
                assert forall|i: int, j: int| 0 <= i < t.len() && 0 <= j < t.len() && i != j implies
                    (#[trigger] t[i]).0 != (#[trigger] t[j]).0 by {
                    if i == s.len() {
                        assert(!has_id(s, id));
                        assert(t[j] == s[j]);
                    } else if j == s.len() {
                        assert(!has_id(s, id));
                        assert(t[i] == s[i]);
                    } else {
                        assert(t[i] == s[i] && t[j] == s[j]);
                    }
                };
            };
            lemma_index_of(t, id, s.len() as int);
            assert forall|k: u64| has_id(t, k) <==> has_id(s, k) || k == id by {
                if has_id(s, k) {
                    let i = choose|i: int| 0 <= i < s.len() && (#[trigger] s[i]).0 == k;
                    assert(t[i] == s[i]);
                }
                if has_id(t, k) && k != id {
                    let i = choose|i: int| 0 <= i < t.len() && (#[trigger] t[i]).0 == k;
                    assert(t[i] == s[i]);
                }
                if k == id {
                    assert(t[s.len() as int].0 == id);
                }
            };
            assert forall|k: u64| has_id(s, k) implies t[index_of(t, k)].1 == s[index_of(s, k)].1 by {
                let i = index_of(s, k);
                assert(0 <= i < s.len() && s[i].0 == k);
                assert(t[i] == s[i]);
                lemma_index_of(t, k, i);
            };
        }
        assert(self@ =~= old(self)@.insert(id, handle));
    }

    /// Removes connection `id`; does nothing if it is not live.
    pub fn unregister(&mut self, id: u64)
        requires
            old(self).wf(),
        ensures
            final(self).wf(),
            final(self)@ == old(self)@.remove(id),
    {
        match self.find(id) {
            None => {
                assert(self@ =~= old(self)@.remove(id));
            },
            Some(idx) => {
                let ghost s = self.entries@;
                self.entries.remove(idx);
                let ghost t = self.entries@;
                proof {
                    let ix = idx as int;
                    assert forall|j: int| 0 <= j < t.len() implies #[trigger] t[j] == (if j < ix { s[j] } else { s[j + 1] }) by {};
                    assert(ids_unique(t)) by {
                        assert forall|i: int, j: int| 0 <= i < t.len() && 0 <= j < t.len() && i != j implies
                            (#[trigger] t[i]).0 != (#[trigger] t[j]).0 by {
                            let i2 = if i < ix { i } else { i + 1 };
                            let j2 = if j < ix { j } else { j + 1 };
                            assert(s[i2].0 != s[j2].0);
                        };
                    };
                    assert forall|k: u64| has_id(t, k) <==> has_id(s, k) && k != id by {
                        if has_id(s, k) && k != id {
                            let i = choose|i: int| 0 <= i < s.len() && (#[trigger] s[i]).0 == k;
                            assert(i != ix);
                            let i2 = if i < ix { i } else { i - 1 };
                            assert(t[i2] == s[i]);
                        }
                        if has_id(t, k) {
                            let i = choose|i: int| 0 <= i < t.len() && (#[trigger] t[i]).0 == k;
                            let i2 = if i < ix { i } else { i + 1 };
                            assert(s[i2] == t[i]);
                            assert(i2 != ix);
                        }
                    };
                    assert forall|k: u64| has_id(t, k) implies t[index_of(t, k)].1 == s[index_of(s, k)].1 by {
                        let i = index_of(t, k);
                        assert(0 <= i < t.len() && t[i].0 == k);
                        let i2 = if i < ix { i } else { i + 1 };
                        assert(s[i2] == t[i]);
                        lemma_index_of(s, k, i2);
                    };
                }
                assert(self@ =~= old(self)@.remove(id));
            },
        }
    }

    /// The live connections other than `excluded`, each with a clone of its
    /// handle, as they stand now.
    pub fn snapshot_except(&self, excluded: Option<u64>) -> (r: Vec<(u64, H)>)
        requires
            self.wf(),
        ensures
            excluded is None ==> is_snapshot_of(r@, self@),
            excluded is Some ==> is_snapshot_of(r@, self@.remove(excluded->Some_0)),
    {
        let ghost s = self.entries@;
        let ghost m = if excluded is Some { self@.remove(excluded->Some_0) } else { self@ };
        let mut r: Vec<(u64, H)> = Vec::new();
        let mut i: usize = 0;
        while i < self.entries.len()
            invariant
                s == self.entries@,
                ids_unique(s),
                m == (if excluded is Some { self@.remove(excluded->Some_0) } else { self@ }),
                i <= s.len(),
                forall|a: int| 0 <= a < r@.len() ==> exists|b: int| 0 <= b < i && (#[trigger] r@[a]).0 == (#[trigger] s[b]).0,
                ids_unique(r@),
                forall|a: int| 0 <= a < r@.len() ==> m.contains_key((#[trigger] r@[a]).0) && cloned(m[r@[a].0], r@[a].1),
                forall|b: int| 0 <= b < i && m.contains_key((#[trigger] s[b]).0) ==> has_id(r@, s[b].0),
            decreases s.len() - i,
        {
            let id = self.entries[i].0;
            let keep = match excluded {
                Some(x) => id != x,
                None => true,
            };
            if keep {
                let h = self.entries[i].1.clone();
                let ghost r0 = r@;
                proof {
                    lemma_index_of(s, id, i as int);
                    assert(m.contains_key(id));
                }
                r.push((id, h));
                proof {
                    let n = r0.len() as int;
                    assert(r@[n] == (id, h));
                    assert forall|a: int| 0 <= a < r@.len() implies exists|b: int| 0 <= b < i + 1 && (#[trigger] r@[a]).0 == (#[trigger] s[b]).0 by {
                        if a < n {
                            assert(r@[a] == r0[a]);
                        } else {
                            assert(r@[a].0 == s[i as int].0);
                        }
                    };
                    assert forall|a: int, c: int| 0 <= a < r@.len() && 0 <= c < r@.len() && a != c implies
                        (#[trigger] r@[a]).0 != (#[trigger] r@[c]).0 by {
                        if a < n && c < n {
                            assert(r@[a] == r0[a] && r@[c] == r0[c]);
                        } else if a < n {
                            assert(r@[a] == r0[a]);
                            let b = choose|b: int| 0 <= b < i && r0[a].0 == (#[trigger] s[b]).0;
                            assert(s[b].0 != s[i as int].0);
                        } else if c < n {
                            assert(r@[c] == r0[c]);
                            let b = choose|b: int| 0 <= b < i && r0[c].0 == (#[trigger] s[b]).0;
                            assert(s[b].0 != s[i as int].0);
                        }
                    };
                    assert forall|a: int| 0 <= a < r@.len() implies m.contains_key((#[trigger] r@[a]).0) && cloned(m[r@[a].0], r@[a].1) by {
                        if a < n {
                            assert(r@[a] == r0[a]);
                        }
                    };
                    assert forall|b: int| 0 <= b < i + 1 && m.contains_key((#[trigger] s[b]).0) implies has_id(r@, s[b].0) by {
                        if b < i {
                            let a = choose|a: int| 0 <= a < r0.len() && (#[trigger] r0[a]).0 == s[b].0;
                            assert(r@[a] == r0[a]);
                        } else {
                            assert(r@[n].0 == s[b].0);
                        }
                    };
                }
            } else {
                proof {
                    assert(!m.contains_key(id));
                }
            }
            i = i + 1;
        }
        proof {
            assert forall|k: u64| #[trigger] m.contains_key(k) implies has_id(r@, k) by {
                let b = index_of(s, k);
                assert(0 <= b < s.len() && s[b].0 == k);
            };
        }
        r
    }

    /// A point-in-time copy of the registry, safe to walk while the registry
    /// itself changes.
    pub fn snapshot(&self) -> (r: Vec<(u64, H)>)
        requires
            self.wf(),
        ensures
            is_snapshot_of(r@, self@),
    {
        self.snapshot_except(None)
    }
}

impl<H: Clone> ConnectionRegistry<H> {
    /// The peers that a frame of `kind` from connection `sender` goes to: every
    /// live connection but the sender, for a text or binary frame, and none for
    /// a control frame.
    pub fn relay_targets(&self, sender: u64, kind: FrameKind) -> (r: Vec<(u64, H)>)
        requires
            self.wf(),
        ensures
            is_relayed(kind) ==> is_snapshot_of(r@, self@.remove(sender)),
            !is_relayed(kind) ==> r@.len() == 0,
    {
        match kind {
            FrameKind::Text | FrameKind::Binary => self.snapshot_except(Some(sender)),
            FrameKind::Control => Vec::new(),
        }
    }
}

/// Hands out connection ids in increasing order, so that no id is given twice.
pub struct ConnectionIds {
    next: u64,
}

impl ConnectionIds {
    /// Every id handed out so far is below this one.
    pub closed spec fn next_id(&self) -> u64 {
        self.next
    }

    /// A source that has handed out no id yet.
    pub fn new() -> (r: ConnectionIds)
        ensures
            r.next_id() == 0,
    {
        ConnectionIds { next: 0 }
    }

    /// The next id, or none once every id has been handed out.
    pub fn allocate(&mut self) -> (r: Option<u64>)
        ensures
            old(self).next_id() < u64::MAX ==> r == Some(old(self).next_id()) && final(self).next_id()
                == old(self).next_id() + 1,
            old(self).next_id() == u64::MAX ==> r is None && final(self).next_id() == old(self).next_id(),
    {
        if self.next == u64::MAX {
            None
        } else {
            let id = self.next;
            self.next = self.next + 1;
            Some(id)
        }
    }
}

/// A frame is never echoed to its sender, and reaches every other live peer.
pub proof fn lemma_broadcast_excludes_sender<H: Clone>(live: Map<u64, H>, sender: u64, targets: Seq<(u64, H)>)
    requires
        is_snapshot_of(targets, live.remove(sender)),
    ensures
        forall|i: int| 0 <= i < targets.len() ==> (#[trigger] targets[i]).0 != sender,
        forall|k: u64| #[trigger] live.contains_key(k) && k != sender ==> has_id(targets, k),
{
    assert forall|k: u64| #[trigger] live.contains_key(k) && k != sender implies has_id(targets, k) by {
        assert(live.remove(sender).contains_key(k));
    };
}

/// One call on a registry, as it takes effect under the registry's lock.
pub enum RegistryOp<H> {
    Register(u64, H),
    Unregister(u64),
}

/// The effect of one call: `register` inserts, `unregister` removes.
pub open spec fn apply_op<H>(live: Map<u64, H>, op: RegistryOp<H>) -> Map<u64, H> {
    match op {
        RegistryOp::Register(id, h) => live.insert(id, h),
        RegistryOp::Unregister(id) => live.remove(id),
    }
}

/// The registry after `ops` have taken effect one after another on `live`.
pub open spec fn apply_ops<H>(live: Map<u64, H>, ops: Seq<RegistryOp<H>>) -> Map<u64, H>
    decreases ops.len(),
{
    if ops.len() == 0 {
        live
    } else {
        apply_op(apply_ops(live, ops.drop_last()), ops.last())
    }
}

/// The handle of the last call in `ops` that concerns `id`, if that call is a
/// `register`; none if it is an `unregister` or there is no such call.
pub open spec fn last_registered<H>(ops: Seq<RegistryOp<H>>, id: u64) -> Option<H>
    decreases ops.len(),
{
    if ops.len() == 0 {
        None
    } else {
        match ops.last() {
            RegistryOp::Register(k, h) => if k == id {
                Some(h)
            } else {
                last_registered(ops.drop_last(), id)
            },
            RegistryOp::Unregister(k) => if k == id {
                None
            } else {
                last_registered(ops.drop_last(), id)
            },
        }
    }
}

/// Whatever order the calls on a registry take effect in, starting from an
/// empty registry each connection is live, with handle `h`, exactly when the
/// last call that concerns it registered it with `h`: no entry is lost and
/// none is duplicated.
pub proof fn lemma_registry_follows_last_call<H>(ops: Seq<RegistryOp<H>>, id: u64)
    ensures
        apply_ops(Map::<u64, H>::empty(), ops).contains_key(id) <==> last_registered(ops, id) is Some,
        last_registered(ops, id) is Some ==> apply_ops(Map::<u64, H>::empty(), ops)[id]
            == last_registered(ops, id)->Some_0,
    decreases ops.len(),
{
    if ops.len() > 0 {
        lemma_registry_follows_last_call(ops.drop_last(), id);
    }
}

/// Registering one connection and unregistering another leave the same live
/// connections in either order: neither loses nor duplicates an entry.
pub proof fn lemma_register_unregister_commute<H>(live: Map<u64, H>, added: u64, handle: H, removed: u64)
    requires
        added != removed,
    ensures
        live.insert(added, handle).remove(removed) == live.remove(removed).insert(added, handle),
        live.insert(added, handle).remove(removed).contains_key(added),
        !live.insert(added, handle).remove(removed).contains_key(removed),
{
    assert(live.insert(added, handle).remove(removed) =~= live.remove(removed).insert(added, handle));
}

} // verus!
