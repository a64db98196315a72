//! The guarantees the store gives across several operations, stated over
//! the same transition functions that the operations' own contracts use.
use vstd::prelude::*;

use crate::state::{consume_result, consume_state, spec_length, spec_publish};

verus! {

/// The topic mapping after publishing each of `msgs`, in order, to `t`.
pub open spec fn publish_all(
    qs: Map<Seq<char>, Seq<Seq<char>>>,
    t: Seq<char>,
    msgs: Seq<Seq<char>>,
) -> Map<Seq<char>, Seq<Seq<char>>>
    decreases msgs.len(),
{
    if msgs.len() == 0 {
        qs
    } else {
        spec_publish(publish_all(qs, t, msgs.drop_last()), t, msgs.last())
    }
}

/// The topic mapping after `n` consumes from `t`.
pub open spec fn consume_n(qs: Map<Seq<char>, Seq<Seq<char>>>, t: Seq<char>, n: nat) -> Map<
    Seq<char>,
    Seq<Seq<char>>,
> decreases n,
{
    if n == 0 {
        qs
    } else {
        consume_state(consume_n(qs, t, (n - 1) as nat), t)
    }
}

/// Publishing `msgs` in order to an absent topic leaves exactly `msgs`
/// under it and touches no other topic.
pub proof fn lemma_publish_all(
    qs: Map<Seq<char>, Seq<Seq<char>>>,
    t: Seq<char>,
    msgs: Seq<Seq<char>>,
)
    requires
        !qs.contains_key(t),
    ensures
        msgs.len() > 0 ==> publish_all(qs, t, msgs).contains_key(t) && publish_all(qs, t, msgs)[t]
            == msgs,
        msgs.len() == 0 ==> publish_all(qs, t, msgs) == qs,
        publish_all(qs, t, msgs).remove(t) == qs.remove(t),
    decreases msgs.len(),
{
    if msgs.len() > 0 {
        let prev = publish_all(qs, t, msgs.drop_last());
        lemma_publish_all(qs, t, msgs.drop_last());
        if msgs.len() == 1 {
            assert(!prev.contains_key(t));
            assert(Seq::<Seq<char>>::empty().push(msgs.last()) =~= msgs);
        } else {
            assert(prev[t] == msgs.drop_last());
            assert(msgs.drop_last().push(msgs.last()) =~= msgs);
        }
        assert(publish_all(qs, t, msgs).remove(t) =~= prev.remove(t));
    }
}

/// After `k` consumes from a topic holding `msgs`, the remainder is
/// `msgs` with its first `k` messages gone.
proof fn lemma_consume_progress(
    qs: Map<Seq<char>, Seq<Seq<char>>>,
    t: Seq<char>,
    msgs: Seq<Seq<char>>,
    k: int,
)
    requires
        qs.contains_key(t),
        qs[t] == msgs,
        0 <= k < msgs.len(),
    ensures
        consume_n(qs, t, k as nat).contains_key(t),
        consume_n(qs, t, k as nat)[t] == msgs.skip(k),
        consume_result(consume_n(qs, t, k as nat), t) == Some(msgs[k]),
    decreases k,
{
    if k == 0 {
        assert(msgs.skip(0) =~= msgs);
    } else {
        lemma_consume_progress(qs, t, msgs, k - 1);
        let prev = consume_n(qs, t, (k - 1) as nat);
        assert(prev[t] == msgs.skip(k - 1));
        assert(prev[t].len() == msgs.len() - (k - 1));
        assert(prev[t].len() > 1);
        assert(consume_n(qs, t, k as nat) == prev.insert(t, prev[t].drop_first()));
        assert(msgs.skip(k - 1).drop_first() =~= msgs.skip(k));
        assert(msgs.skip(k)[0] == msgs[k]);
    }
}

/// FIFO law: after publishing `msgs` in order to a previously absent
/// topic, the `k`-th consume (counting from zero) returns `msgs[k]` — the
/// messages come back in publish order.
pub proof fn lemma_fifo(
    qs: Map<Seq<char>, Seq<Seq<char>>>,
    t: Seq<char>,
    msgs: Seq<Seq<char>>,
    k: int,
)
    requires
        !qs.contains_key(t),
        0 <= k < msgs.len(),
    ensures
        consume_result(consume_n(publish_all(qs, t, msgs), t, k as nat), t) == Some(msgs[k]),
{
    lemma_publish_all(qs, t, msgs);
    lemma_consume_progress(publish_all(qs, t, msgs), t, msgs, k);
}

/// Emptiness law: consuming the last message of a topic leaves the topic
/// absent, so its length reads zero and an overview no longer lists it.
pub proof fn lemma_empty_after_last_consume(qs: Map<Seq<char>, Seq<Seq<char>>>, t: Seq<char>)
    requires
        qs.contains_key(t),
        qs[t].len() == 1,
    ensures
        !consume_state(qs, t).contains_key(t),
        spec_length(consume_state(qs, t), t) == 0,
{
}

/// Not-found law: a consume on an absent or empty topic yields no message
/// and leaves the topic mapping exactly as it was.
pub proof fn lemma_consume_missing(qs: Map<Seq<char>, Seq<Seq<char>>>, t: Seq<char>)
    requires
        !qs.contains_key(t) || qs[t].len() == 0,
    ensures
        consume_result(qs, t) is None,
        consume_state(qs, t) == qs,
{
}

/// Idempotent-delete law: after a key is removed, it is absent — so a
/// second delete finds nothing, and removing it again changes nothing.
pub proof fn lemma_delete_idempotent(kvs: Map<Seq<char>, Seq<char>>, k: Seq<char>)
    ensures
        !kvs.remove(k).contains_key(k),
        kvs.remove(k).remove(k) == kvs.remove(k),
{
    assert(kvs.remove(k).remove(k) =~= kvs.remove(k));
}

} // verus!
