//! The keyed rendezvous channel: a mapping from key to a published value
//! plus a closed flag. `notify` publishes at most once per key, a
//! published value persists and is observed by every later wait on that
//! key, and closing resolves every wait that no published value would.
//! The suspension itself is the host's affair; this module holds the
//! state and its transitions.

use crate::types::Bytes32;
use vstd::prelude::*;

verus! {

/// Outcome of publishing a value under a key.
#[derive(Clone, Copy, Debug, PartialEq, Eq, Structural)]
pub enum NotifyOutcome {
    /// The value is now published under the key.
    Published,
    /// The key already held a value; the state is unchanged.
    Duplicate,
    /// The channel is closed; the state is unchanged.
    Closed,
}

/// First-match lookup in an association sequence.
pub open spec fn assoc_lookup<K, V>(s: Seq<(K, V)>, k: K) -> Option<V>
    decreases s.len(),
{
    if s.len() == 0 {
        None
    } else if s[0].0 == k {
        Some(s[0].1)
    } else {
        assoc_lookup(s.drop_first(), k)
    }
}

/// Keys before position `i` that do not match leave the lookup on the rest.
pub proof fn lemma_assoc_skip<K, V>(s: Seq<(K, V)>, k: K, i: int)
    requires
        0 <= i <= s.len(),
        forall|j: int| 0 <= j < i ==> (#[trigger] s[j]).0 != k,
    ensures
        assoc_lookup(s, k) == assoc_lookup(s.skip(i), k),
    decreases i,
{
    if i > 0 {
        lemma_assoc_skip(s.drop_first(), k, i - 1);
        assert(s.drop_first().skip(i - 1) =~= s.skip(i));
    } else {
        assert(s.skip(0) =~= s);
    }
}

/// Appending a pair leaves every key that is already bound and binds a
/// fresh key to the appended value.
proof fn lemma_assoc_push<K, V>(s: Seq<(K, V)>, k: K, v: V, k2: K)
    ensures
        assoc_lookup(s, k2).is_some() ==> assoc_lookup(s.push((k, v)), k2) == assoc_lookup(s, k2),
        assoc_lookup(s, k2).is_none() && k2 == k ==> assoc_lookup(s.push((k, v)), k2) == Some(v),
        assoc_lookup(s, k2).is_none() && k2 != k ==> assoc_lookup(s.push((k, v)), k2)
            == None::<V>,
    decreases s.len(),
{
    let t = s.push((k, v));
    if s.len() == 0 {
        assert(t[0] == (k, v));
        assert(t.drop_first() =~= Seq::<(K, V)>::empty());
        if k2 == k {
            assert(assoc_lookup(t, k2) == Some(v));
        } else {
            assert(assoc_lookup(t, k2) == assoc_lookup(t.drop_first(), k2));
            assert(assoc_lookup(t, k2) == None::<V>);
        }
    } else {
        assert(t[0] == s[0]);
        lemma_assoc_push(s.drop_first(), k, v, k2);
        assert(t.drop_first() =~= s.drop_first().push((k, v)));
        if s[0].0 == k2 {
            assert(assoc_lookup(s, k2) == Some(s[0].1));
            assert(assoc_lookup(t, k2) == Some(s[0].1));
        } else {
            assert(assoc_lookup(t, k2) == assoc_lookup(t.drop_first(), k2));
            assert(assoc_lookup(s, k2) == assoc_lookup(s.drop_first(), k2));
        }
    }
}

/// A rendezvous channel keyed by block number, as the four stage
/// barriers are.
pub struct Barrier<V> {
    entries: Vec<(u64, V)>,
    closed: bool,
}

/// What `notify` does: it publishes exactly when the channel is open and
/// the key fresh, it never unpublishes, and it leaves every other key
/// and the closed flag alone.
pub open spec fn notify_post<V>(
    pre: Barrier<V>,
    post: Barrier<V>,
    k: u64,
    v: V,
    r: NotifyOutcome,
) -> bool {
    &&& (r == NotifyOutcome::Closed <==> pre.spec_closed())
    &&& (r == NotifyOutcome::Duplicate <==> !pre.spec_closed() && pre.spec_lookup(k).is_some())
    &&& (r == NotifyOutcome::Published <==> !pre.spec_closed() && pre.spec_lookup(k).is_none())
    &&& post.spec_closed() == pre.spec_closed()
    &&& (if r == NotifyOutcome::Published {
        post.spec_lookup(k) == Some(v)
    } else {
        post.spec_lookup(k) == pre.spec_lookup(k)
    })
    &&& forall|k2: u64| k2 != k ==> post.spec_lookup(k2) == pre.spec_lookup(k2)
}

/// A waiter on key `k` is resolved when it would not suspend: a value is
/// published under `k`, or the channel is closed.
pub open spec fn wait_resolved<V>(b: Barrier<V>, k: u64) -> bool {
    b.spec_lookup(k).is_some() || b.spec_closed()
}

impl<V> Barrier<V> {
    /// The value published under `k`, if any.
    pub closed spec fn spec_lookup(self, k: u64) -> Option<V> {
        assoc_lookup(self.entries@, k)
    }

    pub closed spec fn spec_closed(self) -> bool {
        self.closed
    }

    pub fn new() -> (r: Barrier<V>)
        ensures
            !r.spec_closed(),
            forall|k: u64| r.spec_lookup(k).is_none(),
    {
        Barrier { entries: Vec::new(), closed: false }
    }

    /// A channel preloaded so that waits on the seeded keys resolve at
    /// once; used to stand in for the latest already-committed block.
    pub fn new_with_states(seed: Vec<(u64, V)>) -> (r: Barrier<V>)
        ensures
            !r.spec_closed(),
            forall|k: u64| r.spec_lookup(k) == assoc_lookup(seed@, k),
    {
        Barrier { entries: seed, closed: false }
    }

    /// Publish `v` under `k`.
    pub fn notify(&mut self, k: u64, v: V) -> (r: NotifyOutcome)
        ensures
            notify_post(*old(self), *final(self), k, v, r),
    {
        if self.closed {
            return NotifyOutcome::Closed;
        }
        let mut i: usize = 0;
        while i < self.entries.len()
            invariant
                *self == *old(self),
                !self.spec_closed(),
                i <= self.entries@.len(),
                forall|j: int| 0 <= j < i ==> (#[trigger] self.entries@[j]).0 != k,
            decreases self.entries@.len() - i,
        {
            if self.entries[i].0 == k {
                proof {
                    lemma_assoc_skip(self.entries@, k, i as int);
                    assert(self.entries@.skip(i as int)[0] == self.entries@[i as int]);
                    assert(self.spec_lookup(k) == Some(self.entries@[i as int].1));
                }
                return NotifyOutcome::Duplicate;
            }
            i += 1;
        }
        proof {
            lemma_assoc_skip(self.entries@, k, self.entries@.len() as int);
            lemma_assoc_push(self.entries@, k, v, k);
            assert forall|k2: u64| k2 != k implies assoc_lookup(
                self.entries@.push((k, v)),
                k2,
            ) == assoc_lookup(self.entries@, k2) by {
                lemma_assoc_push(self.entries@, k, v, k2);
            }
        }
        self.entries.push((k, v));
        NotifyOutcome::Published
    }

    /// The published value under `k`, if there is one. A published value
    /// persists: every waiter on the same key observes the same value.
    pub fn get(&self, k: u64) -> (r: Option<&V>)
        ensures
            match r {
                Some(v) => self.spec_lookup(k) == Some(*v),
                None => self.spec_lookup(k).is_none(),
            },
    {
        let mut i: usize = 0;
        while i < self.entries.len()
            invariant
                i <= self.entries@.len(),
                forall|j: int| 0 <= j < i ==> (#[trigger] self.entries@[j]).0 != k,
            decreases self.entries@.len() - i,
        {
            if self.entries[i].0 == k {
                proof {
                    lemma_assoc_skip(self.entries@, k, i as int);
                }
                return Some(&self.entries[i].1);
            }
            i += 1;
        }
        proof {
            lemma_assoc_skip(self.entries@, k, self.entries@.len() as int);
        }
        None
    }

    pub fn is_closed(&self) -> (r: bool)
        ensures
            r == self.spec_closed(),
    {
        self.closed
    }

    /// Irrevocably close the channel. Published values persist; every
    /// wait on an unpublished key now resolves to the closed sentinel.
    pub fn close(&mut self)
        ensures
            final (self).spec_closed(),
            forall|k: u64| final (self).spec_lookup(k) == old(self).spec_lookup(k),
    {
        self.closed = true;
    }
}

/// A rendezvous channel keyed by Coordinator block id, carrying block
/// hashes: the two halves of the verification handshake.
pub struct IdChannel {
    entries: Vec<(Bytes32, Bytes32)>,
    closed: bool,
}

/// What `IdChannel::notify` does; the same transition as the barrier's.
pub open spec fn id_notify_post(
    pre: IdChannel,
    post: IdChannel,
    k: Bytes32,
    v: Bytes32,
    r: NotifyOutcome,
) -> bool {
    &&& (r == NotifyOutcome::Closed <==> pre.spec_closed())
    &&& (r == NotifyOutcome::Duplicate <==> !pre.spec_closed() && pre.spec_lookup(k).is_some())
    &&& (r == NotifyOutcome::Published <==> !pre.spec_closed() && pre.spec_lookup(k).is_none())
    &&& post.spec_closed() == pre.spec_closed()
    &&& (if r == NotifyOutcome::Published {
        post.spec_lookup(k) == Some(v)
    } else {
        post.spec_lookup(k) == pre.spec_lookup(k)
    })
    &&& forall|k2: Bytes32| k2 != k ==> post.spec_lookup(k2) == pre.spec_lookup(k2)
}

impl IdChannel {
    pub closed spec fn spec_lookup(self, k: Bytes32) -> Option<Bytes32> {
        assoc_lookup(self.entries@, k)
    }

    pub closed spec fn spec_closed(self) -> bool {
        self.closed
    }

    pub fn new() -> (r: IdChannel)
        ensures
            !r.spec_closed(),
            forall|k: Bytes32| r.spec_lookup(k).is_none(),
    {
        IdChannel { entries: Vec::new(), closed: false }
    }

    /// Publish hash `v` under block id `k`.
    pub fn notify(&mut self, k: Bytes32, v: Bytes32) -> (r: NotifyOutcome)
        ensures
            id_notify_post(*old(self), *final (self), k, v, r),
    {
        if self.closed {
            return NotifyOutcome::Closed;
        }
        let mut i: usize = 0;
        while i < self.entries.len()
            invariant
                *self == *old(self),
                !self.spec_closed(),
                i <= self.entries@.len(),
                forall|j: int| 0 <= j < i ==> (#[trigger] self.entries@[j]).0 != k,
            decreases self.entries@.len() - i,
        {
            if self.entries[i].0 == k {
                proof {
                    lemma_assoc_skip(self.entries@, k, i as int);
                    assert(self.entries@.skip(i as int)[0] == self.entries@[i as int]);
                    assert(self.spec_lookup(k) == Some(self.entries@[i as int].1));
                }
                return NotifyOutcome::Duplicate;
            }
            i += 1;
        }
        proof {
            lemma_assoc_skip(self.entries@, k, self.entries@.len() as int);
            lemma_assoc_push(self.entries@, k, v, k);
            assert forall|k2: Bytes32| k2 != k implies assoc_lookup(
                self.entries@.push((k, v)),
                k2,
            ) == assoc_lookup(self.entries@, k2) by {
                lemma_assoc_push(self.entries@, k, v, k2);
            }
        }
        self.entries.push((k, v));
        NotifyOutcome::Published
    }

    /// The hash published under block id `k`, if there is one.
    pub fn get(&self, k: Bytes32) -> (r: Option<Bytes32>)
        ensures
            r == self.spec_lookup(k),
    {
        let mut i: usize = 0;
        while i < self.entries.len()
            invariant
                i <= self.entries@.len(),
                forall|j: int| 0 <= j < i ==> (#[trigger] self.entries@[j]).0 != k,
            decreases self.entries@.len() - i,
        {
            if self.entries[i].0 == k {
                proof {
                    lemma_assoc_skip(self.entries@, k, i as int);
                    assert(self.entries@.skip(i as int)[0] == self.entries@[i as int]);
                }
                return Some(self.entries[i].1);
            }
            i += 1;
        }
        proof {
            lemma_assoc_skip(self.entries@, k, self.entries@.len() as int);
        }
        None
    }

    pub fn is_closed(&self) -> (r: bool)
        ensures
            r == self.spec_closed(),
    {
        self.closed
    }

    pub fn close(&mut self)
        ensures
            final (self).spec_closed(),
            forall|k: Bytes32| final (self).spec_lookup(k) == old(self).spec_lookup(k),
    {
        self.closed = true;
    }
}

/// Closing the channel resolves every wait, published or not: graceful
/// shutdown cannot leave a waiter suspended.
pub proof fn lemma_close_resolves_all_waits<V>(b: Barrier<V>)
    requires
        b.spec_closed(),
    ensures
        forall|k: u64| wait_resolved(b, k),
{
}

/// A barrier is notified at most once per key: once a value is published
/// under a key, any further notify on that key returns `Duplicate` and
/// leaves the channel unchanged, whatever value it carries.
pub proof fn lemma_notify_at_most_once<V>(
    b0: Barrier<V>,
    b1: Barrier<V>,
    b2: Barrier<V>,
    k: u64,
    v1: V,
    v2: V,
    r2: NotifyOutcome,
)
    requires
        notify_post(b0, b1, k, v1, NotifyOutcome::Published),
        notify_post(b1, b2, k, v2, r2),
    ensures
        r2 == NotifyOutcome::Duplicate,
        b2.spec_lookup(k) == Some(v1),
{
}

/// Publish happens-before every observation on the same key: after a
/// successful notify, a wait on that key resolves immediately to the
/// published value, and no later notify can change it.
pub proof fn lemma_published_value_persists<V>(pre: Barrier<V>, post: Barrier<V>, k: u64, v: V)
    requires
        notify_post(pre, post, k, v, NotifyOutcome::Published),
    ensures
        post.spec_lookup(k) == Some(v),
        wait_resolved(post, k),
{
}

} // verus!
