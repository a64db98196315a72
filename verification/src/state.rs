//! The state-management core: the topic mapping and the key-value mapping,
//! each write-through to the durable store.
//!
//! Every mutating operation updates memory first and then persists
//! synchronously; a persistence failure is reported (publish, set) or
//! deliberately swallowed (consume's cleanup, the periodic flush) because
//! the in-memory mutation has already committed. The caller is expected to
//! guard a shared `PigeonState` with one exclusive lock per the
//! concurrency discipline of the service edge.
use vstd::prelude::*;

use crate::errors::StoreError;
use crate::persistence::{
    self, delete_keyvalue, delete_queue, load_keyvalue, load_queue, save_keyvalue, save_queue,
};
use crate::strmap::StrMap;

verus! {

/// The topic mapping after a publish: the message appended to the tail of
/// the topic's sequence, the topic created if absent.
pub open spec fn spec_publish(
    qs: Map<Seq<char>, Seq<Seq<char>>>,
    t: Seq<char>,
    m: Seq<char>,
) -> Map<Seq<char>, Seq<Seq<char>>> {
    let q = if qs.contains_key(t) {
        qs[t]
    } else {
        Seq::empty()
    };
    qs.insert(t, q.push(m))
}

/// The message a consume hands back: the head of the topic's sequence, or
/// nothing when the topic is absent or empty.
pub open spec fn consume_result(qs: Map<Seq<char>, Seq<Seq<char>>>, t: Seq<char>) -> Option<
    Seq<char>,
> {
    if qs.contains_key(t) && qs[t].len() > 0 {
        Some(qs[t][0])
    } else {
        None
    }
}

/// The topic mapping after a consume: the head removed, and the topic
/// itself removed when its last message went; unchanged on a not-found.
pub open spec fn consume_state(qs: Map<Seq<char>, Seq<Seq<char>>>, t: Seq<char>) -> Map<
    Seq<char>,
    Seq<Seq<char>>,
> {
    if qs.contains_key(t) && qs[t].len() > 0 {
        if qs[t].len() == 1 {
            qs.remove(t)
        } else {
            qs.insert(t, qs[t].drop_first())
        }
    } else {
        qs
    }
}

/// The message count of a topic, zero when absent.
pub open spec fn spec_length(qs: Map<Seq<char>, Seq<Seq<char>>>, t: Seq<char>) -> nat {
    if qs.contains_key(t) {
        qs[t].len()
    } else {
        0
    }
}

/// Shared state of the service: both in-memory mappings and the handle to
/// the durable store they write through to.
pub struct PigeonState {
    queues: StrMap<Vec<String>>,
    keyvalues: StrMap<String>,
    db: sled::Db,
}

impl PigeonState {
    /// The topic mapping: topic name to its ordered message sequence.
    pub closed spec fn queues_view(self) -> Map<Seq<char>, Seq<Seq<char>>> {
        self.queues@
    }

    /// The key-value mapping.
    pub closed spec fn kv_view(self) -> Map<Seq<char>, Seq<char>> {
        self.keyvalues@
    }

    /// Well-formedness: both mappings are well-formed, and a topic with
    /// zero messages never exists as a key — it is absent or non-empty.
    pub closed spec fn wf(self) -> bool {
        &&& self.queues.wf()
        &&& self.keyvalues.wf()
        &&& forall|t: Seq<char>|
            #[trigger] self.queues@.contains_key(t) ==> self.queues@[t].len() > 0
    }

    /// Startup recovery: scan the durable store and rebuild both mappings
    /// before any request is served.
    pub fn new(db: sled::Db) -> (r: Self)
        ensures
            r.wf(),
    {
        let queues = load_queue(&db);
        let keyvalues = load_keyvalue(&db);
        PigeonState { queues, keyvalues, db }
    }

    /// Append `message` to the tail of `topic`'s sequence, creating the
    /// topic if absent, then persist the topic's full current sequence.
    /// The memory mutation always happens; a failed write is reported and
    /// not rolled back.
    pub fn publish(&mut self, topic: &str, message: String) -> (r: Result<(), StoreError>)
        requires
            old(self).wf(),
        ensures
            final(self).wf(),
            final(self).queues_view() == spec_publish(old(self).queues_view(), topic@, message@),
            final(self).kv_view() == old(self).kv_view(),
            r matches Err(e) ==> e is PersistenceFailure,
    {
        let ghost m0 = self.queues@;
        let ghost mv = message@;
        let mut q: Vec<String> = match self.queues.remove(topic) {
            Some(q) => q,
            None => Vec::new(),
        };
        let ghost q0 = q.deep_view();
        q.push(message);
        proof {
            assert(q.deep_view() =~= q0.push(mv));
            if m0.contains_key(topic@) {
                assert(q0 == m0[topic@]);
            } else {
                assert(q0 =~= Seq::<Seq<char>>::empty());
            }
        }
        let res = save_queue(&self.db, topic, &q);
        self.queues.insert(topic.to_owned(), q);
        proof {
            assert(self.queues@ =~= spec_publish(m0, topic@, mv));
        }
        match res {
            Ok(_) => Ok(()),
            Err(e) => Err(e),
        }
    }

    /// Remove and return the head message of `topic`. When the last
    /// message goes, the topic and its persisted record are removed;
    /// otherwise the shortened sequence is persisted. A persistence
    /// failure on this path is swallowed: the message has already been
    /// handed to the caller. On an absent (hence also on an empty) topic,
    /// nothing is observable and `NotFound` is returned.
    pub fn consume(&mut self, topic: &str) -> (r: Result<String, StoreError>)
        requires
            old(self).wf(),
        ensures
            final(self).wf(),
            final(self).queues_view() == consume_state(old(self).queues_view(), topic@),
            final(self).kv_view() == old(self).kv_view(),
            r is Ok <==> consume_result(old(self).queues_view(), topic@) is Some,
            r matches Ok(msg) ==> Some(msg@) == consume_result(old(self).queues_view(), topic@),
            r matches Err(e) ==> e is NotFound && *final(self) == *old(self),
    {
        let ghost m0 = self.queues@;
        match self.queues.remove(topic) {
            None => {
                proof {
                    assert(m0.remove(topic@) =~= m0);
                }
                Err(StoreError::NotFound)
            },
            Some(mut q) => {
                proof {
                    assert(q.deep_view() == m0[topic@]);
                    assert(q.deep_view().len() > 0);
                    assert(q@.len() == q.deep_view().len());
                }
                let ghost q0 = q.deep_view();
                let msg = q.remove(0);
                proof {
                    assert(msg@ == q0[0]);
                    assert(q.deep_view() =~= q0.drop_first());
                }
                if q.len() == 0 {
                    let _ = delete_queue(&self.db, topic);
                    proof {
                        assert(q0.len() == 1);
                        assert(self.queues@ == consume_state(m0, topic@));
                    }
                    Ok(msg)
                } else {
                    let _ = save_queue(&self.db, topic, &q);
                    self.queues.insert(topic.to_owned(), q);
                    proof {
                        assert(q0.len() > 1);
                        assert(self.queues@ =~= m0.insert(topic@, q0.drop_first()));
                    }
                    Ok(msg)
                }
            },
        }
    }

    /// The current message count of `topic`, zero when absent; never fails
    /// and never mutates.
    pub fn length(&self, topic: &str) -> (r: usize)
        requires
            self.wf(),
        ensures
            r == spec_length(self.queues_view(), topic@),
    {
        match self.queues.get(topic) {
            Some(q) => {
                proof {
                    assert(q.deep_view().len() == q@.len());
                }
                q.len()
            },
            None => 0,
        }
    }

    /// A consistent snapshot mapping every currently-present topic to its
    /// message count: each listed topic is present with that count, no
    /// topic is listed twice, and every present topic is listed.
    pub fn overview(&self) -> (r: Vec<(String, usize)>)
        requires
            self.wf(),
        ensures
            r@.len() == self.queues_view().dom().len(),
            forall|i: int|
                0 <= i < r@.len() ==> self.queues_view().contains_key(#[trigger] r@[i].0@)
                    && r@[i].1 == self.queues_view()[r@[i].0@].len(),
            forall|i: int, j: int| 0 <= i < j < r@.len() ==> r@[i].0@ != r@[j].0@,
            forall|t: Seq<char>|
                #[trigger] self.queues_view().contains_key(t) ==> exists|i: int|
                    0 <= i < r@.len() && r@[i].0@ == t,
    {
        proof {
            self.queues.lemma_view();
        }
        let n = self.queues.len();
        let mut r: Vec<(String, usize)> = Vec::new();
        let mut i: usize = 0;
        while i < n
            invariant
                self.queues.wf(),
                n == self.queues.keys().len(),
                0 <= i <= n,
                r@.len() == i,
                forall|j: int|
                    0 <= j < i ==> (#[trigger] r@[j]).0@ == self.queues.keys()[j] && r@[j].1
                        == self.queues@[self.queues.keys()[j]].len(),
            decreases n - i,
        {
            let name = self.queues.key_at(i);
            let q = self.queues.val_at(i);
            proof {
                assert(q.deep_view().len() == q@.len());
            }
            r.push((name.clone(), q.len()));
            i += 1;
        }
        proof {
            self.queues.lemma_view();
            assert forall|t: Seq<char>|
                #[trigger] self.queues_view().contains_key(t) implies exists|i: int|
                0 <= i < r@.len() && r@[i].0@ == t by {
                let i = choose|i: int|
                    0 <= i < self.queues.keys().len() && self.queues.keys()[i] == t;
                assert(r@[i].0@ == t);
            }
        }
        r
    }

    /// Insert or overwrite the entry for `key`, then persist it. The
    /// memory mutation always happens; a failed write is reported.
    pub fn kv_set(&mut self, key: &str, value: String) -> (r: Result<(), StoreError>)
        requires
            old(self).wf(),
        ensures
            final(self).wf(),
            final(self).kv_view() == old(self).kv_view().insert(key@, value@),
            final(self).queues_view() == old(self).queues_view(),
            r matches Err(e) ==> e is PersistenceFailure,
    {
        let res = save_keyvalue(&self.db, key, value.as_str());
        self.keyvalues.insert(key.to_owned(), value);
        match res {
            Ok(_) => Ok(()),
            Err(e) => Err(e),
        }
    }

    /// The value stored under `key`, or `NotFound`; never mutates.
    pub fn kv_get(&self, key: &str) -> (r: Result<String, StoreError>)
        requires
            self.wf(),
        ensures
            r is Ok <==> self.kv_view().contains_key(key@),
            r matches Ok(v) ==> v@ == self.kv_view()[key@],
            r matches Err(e) ==> e is NotFound,
    {
        match self.keyvalues.get(key) {
            Some(v) => Ok(v.clone()),
            None => Err(StoreError::NotFound),
        }
    }

    /// Remove the entry for `key` if present, delete its persisted record
    /// and force a durability flush of the deletion; `NotFound` (with no
    /// observable change) when the key was absent.
    pub fn kv_delete(&mut self, key: &str) -> (r: Result<(), StoreError>)
        requires
            old(self).wf(),
        ensures
            final(self).wf(),
            final(self).kv_view() == old(self).kv_view().remove(key@),
            final(self).queues_view() == old(self).queues_view(),
            r is Ok <==> old(self).kv_view().contains_key(key@),
            r matches Err(e) ==> e is NotFound && *final(self) == *old(self),
    {
        match self.keyvalues.remove(key) {
            Some(_) => {
                let _ = delete_keyvalue(&self.db, key);
                let _ = persistence::db_flush(&self.db);
                Ok(())
            },
            None => {
                proof {
                    assert(old(self).kv_view().remove(key@) =~= old(self).kv_view());
                }
                Err(StoreError::NotFound)
            },
        }
    }

    /// One pass of the flush scheduler: persist every topic's current
    /// sequence, then force the durable store to flush buffered writes.
    /// A failure for one topic never blocks the remainder; the number of
    /// failed topic writes is returned for the caller to log.
    pub fn flush_all(&self) -> (r: usize)
        requires
            self.wf(),
        ensures
            r <= self.queues_view().dom().len(),
    {
        proof {
            self.queues.lemma_view();
        }
        let n = self.queues.len();
        let mut failed: usize = 0;
        let mut i: usize = 0;
        while i < n
            invariant
                self.queues.wf(),
                n == self.queues.keys().len(),
                0 <= i <= n,
                failed <= i,
            decreases n - i,
        {
            let name = self.queues.key_at(i);
            let q = self.queues.val_at(i);
            match save_queue(&self.db, name.as_str(), q) {
                Ok(_) => {},
                Err(_) => {
                    failed += 1;
                },
            }
            i += 1;
        }
        let _ = persistence::db_flush(&self.db);
        proof {
            self.queues.lemma_view();
        }
        failed
    }
}

} // verus!
