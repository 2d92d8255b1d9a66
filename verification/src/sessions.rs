//! Live sessions: which open connections listen for the events of a key (a
//! user's notifications, a namespace's new errors). A connection is known by
//! a number the caller gives it.
use vstd::prelude::*;

verus! {

/// The connections listening per key. A key is listed only while some
/// connection listens for it.
pub struct SessionRegistry {
    keys: Vec<u128>,
    subs: Vec<Vec<u64>>,
}

/// `s` without any occurrence of `x`.
pub open spec fn without(s: Seq<u64>, x: u64) -> Seq<u64>
    decreases s.len(),
{
    if s.len() == 0 {
        s
    } else if s.last() == x {
        without(s.drop_last(), x)
    } else {
        without(s.drop_last(), x).push(s.last())
    }
}

proof fn lemma_without_absent(s: Seq<u64>, x: u64)
    requires
        !s.contains(x),
    ensures
        without(s, x) == s,
    decreases s.len(),
{
    if s.len() > 0 {
        assert(s[s.len() - 1] == s.last());
        assert(!s.drop_last().contains(x)) by {
            if s.drop_last().contains(x) {
                let i = choose|i: int| 0 <= i < s.drop_last().len() && s.drop_last()[i] == x;
                assert(s[i] == x);
            }
        }
        lemma_without_absent(s.drop_last(), x);
        assert(s.drop_last().push(s.last()) =~= s);
    }
}

proof fn lemma_index_of_unique(s: Seq<u128>, i: int)
    requires
        s.no_duplicates(),
        0 <= i < s.len(),
    ensures
        s.index_of(s[i]) == i,
{
    assert(s.contains(s[i]));
    let c = s.index_of(s[i]);
    assert(0 <= c < s.len() && s[c] == s[i]);
}

impl SessionRegistry {
    /// Keys are listed once, beside their listeners, and none has an empty
    /// list of listeners.
    pub closed spec fn wf(&self) -> bool {
        &&& self.keys@.len() == self.subs@.len()
        &&& self.keys@.no_duplicates()
        &&& forall|j: int| 0 <= j < self.subs@.len() ==> #[trigger] self.subs@[j]@.len() > 0
    }

    /// The connections listening for `k`, in the order they joined.
    pub closed spec fn lookup(&self, k: u128) -> Seq<u64> {
        if self.keys@.contains(k) {
            self.subs@[self.keys@.index_of(k)]@
        } else {
            Seq::empty()
        }
    }

    /// Whether `k` is listed.
    pub closed spec fn has(&self, k: u128) -> bool {
        self.keys@.contains(k)
    }

    /// A key is listed exactly while some connection listens for it.
    pub proof fn lemma_listed_iff_listened(&self, k: u128)
        requires
            self.wf(),
        ensures
            self.has(k) <==> self.lookup(k).len() > 0,
    {
        if self.keys@.contains(k) {
            let j = self.keys@.index_of(k);
            assert(self.subs@[j]@.len() > 0);
        }
    }

    pub fn new() -> (r: SessionRegistry)
        ensures
            r.wf(),
            forall|k: u128| !r.has(k) && #[trigger] r.lookup(k) == Seq::<u64>::empty(),
    {
        SessionRegistry { keys: Vec::new(), subs: Vec::new() }
    }

    fn find(&self, k: u128) -> (r: Option<usize>)
        requires
            self.wf(),
        ensures
            match r {
                Some(j) => j < self.keys@.len() && self.keys@[j as int] == k && self.keys@.index_of(k) == j,
                None => !self.keys@.contains(k),
            },
    {
        let mut j: usize = 0;
        while j < self.keys.len()
            invariant
                j <= self.keys@.len(),
                self.keys@.no_duplicates(),
                forall|i: int| 0 <= i < j ==> self.keys@[i] != k,
            decreases self.keys@.len() - j,
        {
            if self.keys[j] == k {
                proof { lemma_index_of_unique(self.keys@, j as int); }
                return Some(j);
            }
            j = j + 1;
        }
        None
    }

    /// Connection `sub` starts listening for `key`.
    pub fn subscribe(&mut self, key: u128, sub: u64)
        requires
            old(self).wf(),
        ensures
            subscribed(*old(self), *final(self), key, sub),
    {
        match self.find(key) {
            Some(j) => {
                let ghost before_keys = self.keys@;
                let ghost before_subs = self.subs@;
                let mut v = self.subs.remove(j);
                v.push(sub);
                self.subs.insert(j, v);
                proof {
                    assert(self.subs@ == before_subs.update(j as int, v));
                    assert forall|i: int| 0 <= i < self.subs@.len() implies #[trigger] self.subs@[i]@.len() > 0 by {
                        if i != j {
                            assert(self.subs@[i] == before_subs[i]);
                        }
                    }
                    assert forall|k: u128| #[trigger] self.lookup(k) == (if k == key {
                        old(self).lookup(key).push(sub)
                    } else {
                        old(self).lookup(k)
                    }) by {
                        if self.keys@.contains(k) {
                            let i = self.keys@.index_of(k);
                            if k != key {
                                assert(i != j);
                                assert(self.subs@[i] == before_subs[i]);
                            }
                        }
                    }
                }
            },
            None => {
                let ghost before_keys = self.keys@;
                let ghost before_subs = self.subs@;
                self.keys.push(key);
                let mut v: Vec<u64> = Vec::new();
                v.push(sub);
                self.subs.push(v);
                proof {
                    let n = before_keys.len() as int;
                    assert(self.keys@[n] == key);
                    assert forall|a: int, b: int| 0 <= a < b < self.keys@.len() implies self.keys@[a] != self.keys@[b] by {
                        if b == n {
                            assert(self.keys@[a] == before_keys[a]);
                            assert(before_keys.contains(before_keys[a]));
                        } else {
                            assert(self.keys@[a] == before_keys[a] && self.keys@[b] == before_keys[b]);
                        }
                    }
                    assert(self.keys@.no_duplicates());
                    assert forall|i: int| 0 <= i < self.subs@.len() implies #[trigger] self.subs@[i]@.len() > 0 by {
                        if i < n {
                            assert(self.subs@[i] == before_subs[i]);
                        }
                    }
                    assert forall|k: u128| #[trigger] self.lookup(k) == (if k == key {
                        old(self).lookup(key).push(sub)
                    } else {
                        old(self).lookup(k)
                    }) by {
                        if k == key {
                            lemma_index_of_unique(self.keys@, n);
                            assert(v@ =~= Seq::<u64>::empty().push(sub));
                        } else if self.keys@.contains(k) {
                            let i = self.keys@.index_of(k);
                            assert(i != n);
                            assert(before_keys[i] == k);
                            assert(before_keys.contains(k));
                            lemma_index_of_unique(before_keys, i);
                            assert(self.subs@[i] == before_subs[i]);
                        } else {
                            assert(!before_keys.contains(k)) by {
                                if before_keys.contains(k) {
                                    let i = before_keys.index_of(k);
                                    assert(self.keys@[i] == k);
                                }
                            }
                        }
                    }
                    assert forall|k: u128| #[trigger] self.has(k) == (old(self).has(k) || k == key) by {
                        if before_keys.contains(k) {
                            let i = before_keys.index_of(k);
                            assert(self.keys@[i] == k);
                        }
                        if self.keys@.contains(k) && k != key {
                            let i = self.keys@.index_of(k);
                            assert(before_keys[i] == k);
                        }
                    }
                }
            },
        }
    }

    /// Connection `sub` stops listening for `key`; a key left without
    /// listeners is dropped.
    pub fn unsubscribe(&mut self, key: u128, sub: u64)
        requires
            old(self).wf(),
        ensures
            unsubscribed(*old(self), *final(self), key, sub),
    {
        match self.find(key) {
            None => {
                proof {
                    assert(old(self).lookup(key) == Seq::<u64>::empty());
                    assert(without(Seq::<u64>::empty(), sub) == Seq::<u64>::empty());
                    assert(unsubscribed(*old(self), *self, key, sub));
                }
            },
            Some(j) => {
                let ghost before_keys = self.keys@;
                let ghost before_subs = self.subs@;
                let v = self.subs.remove(j);
                proof {
                    assert(v == before_subs[j as int]);
                    assert(v@ == old(self).lookup(key));
                }
                let mut kept: Vec<u64> = Vec::new();
                let mut q: usize = 0;
                while q < v.len()
                    invariant
                        q <= v@.len(),
                        kept@ == without(v@.take(q as int), sub),
                    decreases v@.len() - q,
                {
                    proof {
                        let t = v@.take(q + 1);
                        assert(t.drop_last() =~= v@.take(q as int));
                        assert(t.last() == v@[q as int]);
                    }
                    if v[q] != sub {
                        kept.push(v[q]);
                    }
                    q = q + 1;
                }
                proof { assert(v@.take(v@.len() as int) =~= v@); }
                if kept.len() == 0 {
                    self.keys.remove(j);
                    proof {
                        assert(self.keys@ == before_keys.remove(j as int));
                        assert(self.subs@ == before_subs.remove(j as int));
                        assert forall|a: int, b: int| 0 <= a < b < self.keys@.len() implies self.keys@[a] != self.keys@[b] by {
                            let a0 = if a < j { a } else { a + 1 };
                            let b0 = if b < j { b } else { b + 1 };
                            assert(self.keys@[a] == before_keys[a0] && self.keys@[b] == before_keys[b0]);
                        }
                        assert(self.keys@.no_duplicates());
                        assert forall|i: int| 0 <= i < self.subs@.len() implies #[trigger] self.subs@[i]@.len() > 0 by {
                            let i0 = if i < j { i } else { i + 1 };
                            assert(self.subs@[i] == before_subs[i0]);
                        }
                        assert forall|k: u128| #![trigger self.lookup(k)] #![trigger self.has(k)] self.lookup(k) == (if k == key {
                            without(old(self).lookup(key), sub)
                        } else {
                            old(self).lookup(k)
                        }) && self.has(k) == (if k == key {
                            without(old(self).lookup(key), sub).len() > 0
                        } else {
                            old(self).has(k)
                        }) by {
                            if k == key {
                                assert(!self.keys@.contains(k)) by {
                                    if self.keys@.contains(k) {
                                        let i = self.keys@.index_of(k);
                                        let i0 = if i < j { i } else { i + 1 };
                                        assert(before_keys[i0] == k);
                                    }
                                }
                            } else if before_keys.contains(k) {
                                let i0 = before_keys.index_of(k);
                                assert(i0 != j);
                                let i = if i0 < j { i0 } else { i0 - 1 };
                                assert(self.keys@[i] == k);
                                lemma_index_of_unique(self.keys@, i);
                                assert(self.subs@[i] == before_subs[i0]);
                            } else {
                                assert(!old(self).has(k));
                                assert(!self.keys@.contains(k)) by {
                                    if self.keys@.contains(k) {
                                        let i = self.keys@.index_of(k);
                                        let i0 = if i < j { i } else { i + 1 };
                                        assert(before_keys[i0] == k);
                                    }
                                }
                            }
                        }
                        assert(self.wf());
                        assert(unsubscribed(*old(self), *self, key, sub));
                    }
                } else {
                    self.subs.insert(j, kept);
                    proof {
                        assert(self.subs@ == before_subs.update(j as int, kept));
                        assert forall|i: int| 0 <= i < self.subs@.len() implies #[trigger] self.subs@[i]@.len() > 0 by {
                            if i != j {
                                assert(self.subs@[i] == before_subs[i]);
                            }
                        }
                        assert forall|k: u128| #![trigger self.lookup(k)] #![trigger self.has(k)] self.lookup(k) == (if k == key {
                            without(old(self).lookup(key), sub)
                        } else {
                            old(self).lookup(k)
                        }) && self.has(k) == (if k == key {
                            without(old(self).lookup(key), sub).len() > 0
                        } else {
                            old(self).has(k)
                        }) by {
                            if k == key {
                                assert(self.keys@.contains(key));
                                assert(self.subs@[j as int] == kept);
                            }
                            if self.keys@.contains(k) && k != key {
                                let i = self.keys@.index_of(k);
                                assert(i != j);
                                assert(self.subs@[i] == before_subs[i]);
                            }
                        }
                        assert(self.wf());
                        assert(unsubscribed(*old(self), *self, key, sub));
                    }
                }
            },
        }
    }

    /// The connections that receive an event for `key`.
    pub fn targets(&self, key: u128) -> (r: Vec<u64>)
        requires
            self.wf(),
        ensures
            r@ == self.lookup(key),
    {
        match self.find(key) {
            None => Vec::new(),
            Some(j) => {
                let v = &self.subs[j];
                let mut r: Vec<u64> = Vec::new();
                let mut q: usize = 0;
                while q < v.len()
                    invariant
                        q <= v@.len(),
                        r@ == v@.take(q as int),
                    decreases v@.len() - q,
                {
                    r.push(v[q]);
                    proof { assert(r@ =~= v@.take(q + 1)); }
                    q = q + 1;
                }
                proof { assert(v@.take(v@.len() as int) =~= v@); }
                r
            },
        }
    }
}

/// What `subscribe` does: `sub` joins the end of `key`'s listeners; every
/// other key is untouched.
pub open spec fn subscribed(a: SessionRegistry, b: SessionRegistry, key: u128, sub: u64) -> bool {
    &&& b.wf()
    &&& forall|k: u128| #[trigger] b.lookup(k) == if k == key { a.lookup(key).push(sub) } else { a.lookup(k) }
    &&& forall|k: u128| #[trigger] b.has(k) == (a.has(k) || k == key)
}

/// What `unsubscribe` does: every occurrence of `sub` leaves `key`'s
/// listeners, and `key` stays listed only if some are left; every other key
/// is untouched.
pub open spec fn unsubscribed(a: SessionRegistry, b: SessionRegistry, key: u128, sub: u64) -> bool {
    &&& b.wf()
    &&& forall|k: u128| #[trigger] b.lookup(k) == if k == key { without(a.lookup(key), sub) } else { a.lookup(k) }
    &&& forall|k: u128| #[trigger] b.has(k) == if k == key { without(a.lookup(key), sub).len() > 0 } else { a.has(k) }
}

/// A connection that was not listening for a key and subscribes, then
/// unsubscribes, leaves the registry as it found it.
pub proof fn lemma_unsubscribe_undoes_subscribe(
    a: SessionRegistry,
    b: SessionRegistry,
    c: SessionRegistry,
    key: u128,
    sub: u64,
)
    requires
        a.wf(),
        !a.lookup(key).contains(sub),
        subscribed(a, b, key, sub),
        unsubscribed(b, c, key, sub),
    ensures
        forall|k: u128| #[trigger] c.lookup(k) == a.lookup(k) && c.has(k) == a.has(k),
{
    let l = a.lookup(key);
    assert(l.push(sub).drop_last() =~= l);
    lemma_without_absent(l, sub);
    assert(without(l.push(sub), sub) == l);
    a.lemma_listed_iff_listened(key);
}

} // verus!
