//! Serialization of a topic's message sequence into a single persisted
//! record: messages joined by a single `'\n'` separator, with empty
//! segments dropped when the record is read back.
//!
//! Known limitation, kept deliberately: because the separator is a bare
//! newline, a message payload that itself contains `'\n'` is split into
//! several messages when the record is decoded after a restart, and an
//! empty payload disappears. [`lemma_codec_round_trip`] therefore holds
//! exactly for non-empty, newline-free payloads.
use vstd::prelude::*;

verus! {

/// No character of `s` is the separator.
pub open spec fn no_newline(s: Seq<char>) -> bool {
    forall|i: int| 0 <= i < s.len() ==> s[i] != '\n'
}

/// Index of the first `'\n'` in `s`, or `s.len()` if there is none.
pub open spec fn first_newline(s: Seq<char>) -> int
    decreases s.len(),
{
    if s.len() == 0 {
        0
    } else if s[0] == '\n' {
        0
    } else {
        1 + first_newline(s.drop_first())
    }
}

/// Segments of `s` between separators, in order, empty segments included.
pub open spec fn split_segments(s: Seq<char>) -> Seq<Seq<char>>
    decreases s.len(),
{
    let i = first_newline(s);
    if 0 <= i < s.len() {
        seq![s.subrange(0, i)] + split_segments(s.subrange(i + 1, s.len() as int))
    } else {
        seq![s]
    }
}

/// The subsequence of non-empty segments.
pub open spec fn keep_nonempty(segs: Seq<Seq<char>>) -> Seq<Seq<char>>
    decreases segs.len(),
{
    if segs.len() == 0 {
        Seq::empty()
    } else if segs[0].len() > 0 {
        seq![segs[0]] + keep_nonempty(segs.drop_first())
    } else {
        keep_nonempty(segs.drop_first())
    }
}

/// What a persisted record's value decodes to.
pub open spec fn decoded_messages(s: Seq<char>) -> Seq<Seq<char>> {
    keep_nonempty(split_segments(s))
}

/// The messages joined by single `'\n'` separators.
pub open spec fn joined_messages(msgs: Seq<Seq<char>>) -> Seq<char>
    decreases msgs.len(),
{
    if msgs.len() == 0 {
        Seq::empty()
    } else if msgs.len() == 1 {
        msgs[0]
    } else {
        joined_messages(msgs.drop_last()) + seq!['\n'] + msgs.last()
    }
}

/// `first_newline` is `k` exactly when everything before `k` is
/// separator-free and position `k` (if inside `s`) holds the separator.
proof fn lemma_first_newline_is(s: Seq<char>, k: int)
    requires
        0 <= k <= s.len(),
        forall|j: int| 0 <= j < k ==> s[j] != '\n',
        k == s.len() || s[k] == '\n',
    ensures
        first_newline(s) == k,
    decreases k,
{
    if k == 0 {
        if s.len() > 0 {
            assert(s[0] == '\n');
        }
    } else {
        assert(s[0] != '\n');
        let t = s.drop_first();
        assert(forall|j: int| 0 <= j < k - 1 ==> t[j] == s[j + 1] && t[j] != '\n');
        if k < s.len() {
            assert(t[k - 1] == s[k]);
        }
        lemma_first_newline_is(t, k - 1);
    }
}

proof fn lemma_keep_nonempty_step(a: Seq<char>, rest: Seq<Seq<char>>)
    ensures
        a.len() > 0 ==> keep_nonempty(seq![a] + rest) == seq![a] + keep_nonempty(rest),
        a.len() == 0 ==> keep_nonempty(seq![a] + rest) == keep_nonempty(rest),
{
    let w = seq![a] + rest;
    assert(w[0] == a);
    assert(w.drop_first() =~= rest);
}

/// Front unfolding of `joined_messages`.
proof fn lemma_joined_front(msgs: Seq<Seq<char>>)
    requires
        msgs.len() >= 2,
    ensures
        joined_messages(msgs) == msgs[0] + seq!['\n'] + joined_messages(msgs.drop_first()),
    decreases msgs.len(),
{
    if msgs.len() == 2 {
        assert(msgs.drop_last() =~= seq![msgs[0]]);
        assert(msgs.drop_first() =~= seq![msgs[1]]);
        assert(joined_messages(seq![msgs[0]]) == msgs[0]);
        assert(joined_messages(seq![msgs[1]]) == msgs[1]);
        assert(msgs.last() == msgs[1]);
    } else {
        let dl = msgs.drop_last();
        lemma_joined_front(dl);
        assert(dl[0] == msgs[0]);
        let df = msgs.drop_first();
        assert(dl.drop_first() =~= df.drop_last());
        assert(df.len() >= 2);
        assert(df.last() == msgs.last());
        assert(joined_messages(msgs) == joined_messages(dl) + seq!['\n'] + msgs.last());
        assert(joined_messages(dl) == msgs[0] + seq!['\n'] + joined_messages(df.drop_last()));
        assert(joined_messages(df) == joined_messages(df.drop_last()) + seq!['\n'] + df.last());
        assert(joined_messages(msgs) =~= msgs[0] + seq!['\n'] + joined_messages(df));
    }
}

/// Round-trip law: joining non-empty, separator-free messages and decoding
/// the result gives back exactly the original message sequence.
pub proof fn lemma_codec_round_trip(msgs: Seq<Seq<char>>)
    requires
        forall|i: int|
            0 <= i < msgs.len() ==> (#[trigger] msgs[i]).len() > 0 && no_newline(msgs[i]),
    ensures
        decoded_messages(joined_messages(msgs)) == msgs,
    decreases msgs.len(),
{
    if msgs.len() == 0 {
        let e = Seq::<char>::empty();
        assert(joined_messages(msgs) == e);
        assert(first_newline(e) == 0);
        assert(split_segments(e) == seq![e]);
        lemma_keep_nonempty_step(e, Seq::empty());
        assert(seq![e].drop_first() =~= Seq::<Seq<char>>::empty());
        assert(keep_nonempty(seq![e]) == keep_nonempty(Seq::<Seq<char>>::empty()));
        assert(decoded_messages(joined_messages(msgs)) =~= msgs);
    } else if msgs.len() == 1 {
        let a = msgs[0];
        assert(joined_messages(msgs) == a);
        lemma_first_newline_is(a, a.len() as int);
        assert(split_segments(a) == seq![a]);
        assert(seq![a].drop_first() =~= Seq::<Seq<char>>::empty());
        assert(keep_nonempty(seq![a]) == seq![a] + keep_nonempty(Seq::<Seq<char>>::empty()));
        assert(decoded_messages(joined_messages(msgs)) =~= msgs);
    } else {
        let a = msgs[0];
        let rest = msgs.drop_first();
        let s = joined_messages(msgs);
        lemma_joined_front(msgs);
        let tail = joined_messages(rest);
        assert(s == a + seq!['\n'] + tail);
        let alen = a.len() as int;
        assert(s.len() == alen + 1 + tail.len());
        assert forall|j: int| 0 <= j < alen implies s[j] != '\n' by {
            assert(s[j] == a[j]);
        }
        assert(s[alen] == '\n');
        lemma_first_newline_is(s, alen);
        assert(split_segments(s) == seq![s.subrange(0, alen)] + split_segments(
            s.subrange(alen + 1, s.len() as int),
        ));
        assert(s.subrange(0, alen) =~= a);
        assert(s.subrange(alen + 1, s.len() as int) =~= tail);
        lemma_keep_nonempty_step(a, split_segments(tail));
        assert(forall|i: int|
            0 <= i < rest.len() ==> (#[trigger] rest[i]).len() > 0 && no_newline(rest[i]));
        lemma_codec_round_trip(rest);
        assert(decoded_messages(s) == seq![a] + rest);
        assert(seq![a] + rest =~= msgs);
    }
}

/// Serialize a message sequence into the persisted record value.
pub fn encode_messages(msgs: &Vec<String>) -> (r: String)
    ensures
        r@ == joined_messages(msgs.deep_view()),
{
    let ghost dv = msgs.deep_view();
    let n = msgs.len();
    let mut r = String::new();
    let mut i: usize = 0;
    proof {
        assert(dv.take(0) =~= Seq::<Seq<char>>::empty());
    }
    while i < n
        invariant
            n == msgs@.len(),
            dv == msgs.deep_view(),
            dv.len() == n,
            0 <= i <= n,
            r@ == joined_messages(dv.take(i as int)),
        decreases n - i,
    {
        if i > 0 {
            r.append("\n");
        }
        r.append(msgs[i].as_str());
        proof {
            reveal_strlit("\n");
            assert("\n"@ =~= seq!['\n']);
            let t1 = dv.take(i + 1);
            assert(t1.drop_last() =~= dv.take(i as int));
            assert(t1.last() == dv[i as int]);
            assert(dv[i as int] == msgs@[i as int]@);
            if i == 0 {
                assert(t1.len() == 1);
                assert(joined_messages(t1) == t1[0]);
                assert(r@ =~= joined_messages(t1));
            } else {
                assert(t1.len() >= 2);
                assert(joined_messages(t1) == joined_messages(dv.take(i as int)) + seq!['\n']
                    + dv[i as int]);
                assert(r@ =~= joined_messages(t1));
            }
        }
        i += 1;
    }
    proof {
        assert(dv.take(n as int) =~= dv);
    }
    r
}

/// Decode a persisted record value back into its messages: split on the
/// separator and drop empty segments.
pub fn split_messages(s: &str) -> (r: Vec<String>)
    ensures
        r.deep_view() == decoded_messages(s@),
{
    let n = s.unicode_len();
    let mut r: Vec<String> = Vec::new();
    let mut start: usize = 0;
    let mut i: usize = 0;
    proof {
        assert(s@.subrange(0, n as int) =~= s@);
        assert(r.deep_view() =~= Seq::<Seq<char>>::empty());
    }
    while i < n
        invariant
            n == s@.len(),
            0 <= start <= i <= n,
            forall|j: int| start <= j < i ==> s@[j] != '\n',
            decoded_messages(s@) == r.deep_view() + decoded_messages(
                s@.subrange(start as int, n as int),
            ),
        decreases n - i,
    {
        let c = s.get_char(i);
        if c == '\n' {
            let ghost tail = s@.subrange(start as int, n as int);
            let ghost cut = i - start;
            proof {
                assert(forall|j: int| 0 <= j < cut ==> tail[j] == s@[start + j]);
                assert(tail[cut as int] == s@[i as int]);
                lemma_first_newline_is(tail, cut as int);
                assert(split_segments(tail) == seq![tail.subrange(0, cut as int)]
                    + split_segments(tail.subrange(cut + 1, tail.len() as int)));
                assert(tail.subrange(0, cut as int) =~= s@.subrange(start as int, i as int));
                assert(tail.subrange(cut + 1, tail.len() as int) =~= s@.subrange(
                    i + 1,
                    n as int,
                ));
                lemma_keep_nonempty_step(
                    s@.subrange(start as int, i as int),
                    split_segments(s@.subrange(i + 1, n as int)),
                );
            }
            if i > start {
                let seg = s.substring_char(start, i);
                let ghost old_dv = r.deep_view();
                r.push(seg.to_owned());
                proof {
                    assert(r.deep_view() =~= old_dv.push(seg@));
                    assert(old_dv.push(seg@) =~= old_dv + seq![seg@]);
                    assert(r.deep_view() + decoded_messages(s@.subrange(i + 1, n as int))
                        =~= old_dv + decoded_messages(s@.subrange(start as int, n as int)));
                }
            }
            start = i + 1;
        }
        i += 1;
    }
    let ghost tail = s@.subrange(start as int, n as int);
    proof {
        lemma_first_newline_is(tail, tail.len() as int);
        assert(split_segments(tail) == seq![tail]);
        lemma_keep_nonempty_step(tail, Seq::empty());
        assert(seq![tail].drop_first() =~= Seq::<Seq<char>>::empty());
        assert(seq![tail] =~= seq![tail] + Seq::<Seq<char>>::empty());
    }
    if start < n {
        let seg = s.substring_char(start, n);
        let ghost old_dv = r.deep_view();
        r.push(seg.to_owned());
        proof {
            assert(tail.len() > 0);
            assert(decoded_messages(tail) == seq![tail] + keep_nonempty(
                Seq::<Seq<char>>::empty(),
            ));
            assert(decoded_messages(tail) =~= seq![tail]);
            assert(r.deep_view() =~= old_dv.push(seg@));
            assert(seg@ == tail);
            assert(r.deep_view() =~= old_dv + decoded_messages(tail));
            assert(r.deep_view() =~= decoded_messages(s@));
        }
    } else {
        proof {
            assert(tail.len() == 0);
            assert(decoded_messages(tail) =~= Seq::<Seq<char>>::empty());
            assert(r.deep_view() =~= decoded_messages(s@));
        }
    }
    r
}

} // verus!
