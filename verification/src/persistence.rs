//! Persistence adapter: translates store entities to and from the durable
//! store's flat namespace and performs the bulk load at startup.
//!
//! Namespace convention, stable across restarts: a topic's record is keyed
//! `queue_<topic>` and holds the messages joined by the newline separator;
//! a key-value record is keyed `kv_<key>` and holds the raw payload.
//!
//! The durable store itself is sled, reached only through the trusted
//! wrappers in this module; everything computed around those calls is
//! verified.
use vstd::prelude::*;

use crate::codec::{
    decoded_messages, encode_messages, joined_messages, no_newline, split_messages,
};
use crate::errors::StoreError;
use crate::strmap::StrMap;
use crate::strutil::str_starts_with;
use vstd::utf8::{decode_utf8, encode_utf8, valid_utf8};

verus! {

/// The durable store's handle, opaque to the verifier.
#[verifier::external_type_specification]
#[verifier::external_body]
pub struct ExDb(sled::Db);

/// The durable store's error type; carried through and mapped, never read.
#[verifier::external_type_specification]
#[verifier::external_body]
pub struct ExSledError(sled::Error);

/// The error a failed UTF-8 decode reports; only its presence matters.
#[verifier::external_type_specification]
#[verifier::external_body]
pub struct ExUtf8Error(core::str::Utf8Error);

/// Relies on core::str::from_utf8: it succeeds exactly on valid UTF-8, and
/// the characters of the resulting slice are the decoding of the bytes.
pub assume_specification[ core::str::from_utf8 ](v: &[u8]) -> (r: Result<
    &str,
    core::str::Utf8Error,
>)
    ensures
        r is Ok <==> valid_utf8(v@),
        r matches Ok(s) ==> s@ == decode_utf8(v@),
;

/// Relies on sled::Tree::insert (reached through Db's Deref): writes one
/// record, reporting only success or failure; the previous value under the
/// key is discarded.
#[verifier::external_body]
fn db_insert(db: &sled::Db, key: &str, value: &str) -> (r: Result<(), sled::Error>) {
    match db.insert(key, value) {
        Ok(_) => Ok(()),
        Err(e) => Err(e),
    }
}

/// Relies on sled::Tree::remove (reached through Db's Deref): deletes one
/// record, reporting only success or failure.
#[verifier::external_body]
fn db_remove(db: &sled::Db, key: &str) -> (r: Result<(), sled::Error>) {
    match db.remove(key) {
        Ok(_) => Ok(()),
        Err(e) => Err(e),
    }
}

/// Relies on sled::Tree::flush (reached through Db's Deref): forces
/// buffered writes to stable storage; the flushed byte count is discarded.
#[verifier::external_body]
pub(crate) fn db_flush(db: &sled::Db) -> (r: Result<(), sled::Error>) {
    match db.flush() {
        Ok(_) => Ok(()),
        Err(e) => Err(e),
    }
}

/// Relies on sled::Tree::iter (reached through Db's Deref): yields every
/// record in the store as raw bytes; records the iterator reports as
/// errors are passed over.
#[verifier::external_body]
fn db_scan(db: &sled::Db) -> (r: Vec<(Vec<u8>, Vec<u8>)>) {
    let mut out: Vec<(Vec<u8>, Vec<u8>)> = Vec::new();
    for item in db.iter() {
        if let Ok((k, v)) = item {
            out.push((k.to_vec(), v.to_vec()));
        }
    }
    out
}

/// The durable-store key under which a topic's record lives.
pub open spec fn queue_key_spec(topic: Seq<char>) -> Seq<char> {
    "queue_"@ + topic
}

/// The durable-store key under which a key-value entry lives.
pub open spec fn kv_key_spec(key: Seq<char>) -> Seq<char> {
    "kv_"@ + key
}

/// True when `k` lies in the queue namespace.
pub open spec fn is_queue_key(k: Seq<char>) -> bool {
    "queue_"@.len() <= k.len() && k.subrange(0, "queue_"@.len() as int) == "queue_"@
}

/// True when `k` lies in the key-value namespace.
pub open spec fn is_kv_key(k: Seq<char>) -> bool {
    "kv_"@.len() <= k.len() && k.subrange(0, "kv_"@.len() as int) == "kv_"@
}

/// The topic named by a queue-namespace key.
pub open spec fn queue_topic_of(k: Seq<char>) -> Seq<char> {
    k.skip("queue_"@.len() as int)
}

/// The entry key named by a key-value-namespace key.
pub open spec fn kv_entry_of(k: Seq<char>) -> Seq<char> {
    k.skip("kv_"@.len() as int)
}

/// Build the durable-store key for a topic.
pub fn queue_key(topic: &str) -> (r: String)
    ensures
        r@ == queue_key_spec(topic@),
{
    let mut s = String::from_str("queue_");
    s.append(topic);
    s
}

/// Build the durable-store key for a key-value entry.
pub fn kv_key(key: &str) -> (r: String)
    ensures
        r@ == kv_key_spec(key@),
{
    let mut s = String::from_str("kv_");
    s.append(key);
    s
}

/// Classify a durable-store key: the topic name if it lies in the queue
/// namespace, `None` otherwise.
pub fn parse_queue_key(k: &str) -> (r: Option<String>)
    ensures
        r is Some <==> is_queue_key(k@),
        r matches Some(t) ==> t@ == queue_topic_of(k@),
{
    let p = "queue_";
    if str_starts_with(k, p) {
        let n = k.unicode_len();
        let pl = p.unicode_len();
        let t = k.substring_char(pl, n);
        proof {
            assert(t@ =~= k@.skip("queue_"@.len() as int));
        }
        Some(t.to_owned())
    } else {
        None
    }
}

/// Classify a durable-store key: the entry key if it lies in the key-value
/// namespace, `None` otherwise.
pub fn parse_kv_key(k: &str) -> (r: Option<String>)
    ensures
        r is Some <==> is_kv_key(k@),
        r matches Some(e) ==> e@ == kv_entry_of(k@),
{
    let p = "kv_";
    if str_starts_with(k, p) {
        let n = k.unicode_len();
        let pl = p.unicode_len();
        let t = k.substring_char(pl, n);
        proof {
            assert(t@ =~= k@.skip("kv_"@.len() as int));
        }
        Some(t.to_owned())
    } else {
        None
    }
}

/// Serialize the ordered sequence into one persisted record and write it.
/// Memory is never touched here; a failed write is reported to the caller.
pub fn save_queue(db: &sled::Db, topic: &str, queue: &Vec<String>) -> (r: Result<(), StoreError>)
    ensures
        r matches Err(e) ==> e is PersistenceFailure,
{
    let key = queue_key(topic);
    let value = encode_messages(queue);
    match db_insert(db, key.as_str(), value.as_str()) {
        Ok(_) => Ok(()),
        Err(_) => Err(StoreError::PersistenceFailure),
    }
}

/// Write one key-value record.
pub fn save_keyvalue(db: &sled::Db, key: &str, value: &str) -> (r: Result<(), StoreError>)
    ensures
        r matches Err(e) ==> e is PersistenceFailure,
{
    let db_key = kv_key(key);
    match db_insert(db, db_key.as_str(), value) {
        Ok(_) => Ok(()),
        Err(_) => Err(StoreError::PersistenceFailure),
    }
}

/// Delete a topic's persisted record.
pub fn delete_queue(db: &sled::Db, topic: &str) -> (r: Result<(), StoreError>)
    ensures
        r matches Err(e) ==> e is PersistenceFailure,
{
    let key = queue_key(topic);
    match db_remove(db, key.as_str()) {
        Ok(_) => Ok(()),
        Err(_) => Err(StoreError::PersistenceFailure),
    }
}

/// Delete a key-value entry's persisted record.
pub fn delete_keyvalue(db: &sled::Db, key: &str) -> (r: Result<(), StoreError>)
    ensures
        r matches Err(e) ==> e is PersistenceFailure,
{
    let db_key = kv_key(key);
    match db_remove(db, db_key.as_str()) {
        Ok(_) => Ok(()),
        Err(_) => Err(StoreError::PersistenceFailure),
    }
}

/// The topic mapping described by a sequence of raw records: queue-namespace
/// records that decode, taken in order, later records overriding earlier
/// ones; a record whose sequence decodes to no messages yields no topic.
pub open spec fn queues_of_records(recs: Seq<(Seq<u8>, Seq<u8>)>) -> Map<Seq<char>, Seq<Seq<char>>>
    decreases recs.len(),
{
    if recs.len() == 0 {
        Map::empty()
    } else {
        let m = queues_of_records(recs.drop_last());
        let kb = recs.last().0;
        let vb = recs.last().1;
        if valid_utf8(kb) && valid_utf8(vb) && is_queue_key(decode_utf8(kb)) {
            let msgs = decoded_messages(decode_utf8(vb));
            if msgs.len() > 0 {
                m.insert(queue_topic_of(decode_utf8(kb)), msgs)
            } else {
                m
            }
        } else {
            m
        }
    }
}

/// The key-value mapping described by a sequence of raw records.
pub open spec fn keyvalues_of_records(recs: Seq<(Seq<u8>, Seq<u8>)>) -> Map<Seq<char>, Seq<char>>
    decreases recs.len(),
{
    if recs.len() == 0 {
        Map::empty()
    } else {
        let m = keyvalues_of_records(recs.drop_last());
        let kb = recs.last().0;
        let vb = recs.last().1;
        if valid_utf8(kb) && valid_utf8(vb) && is_kv_key(decode_utf8(kb)) {
            m.insert(kv_entry_of(decode_utf8(kb)), decode_utf8(vb))
        } else {
            m
        }
    }
}

/// Every topic a record sequence describes is non-empty.
pub proof fn lemma_queues_of_records_nonempty(recs: Seq<(Seq<u8>, Seq<u8>)>)
    ensures
        forall|t: Seq<char>|
            #[trigger] queues_of_records(recs).contains_key(t) ==> queues_of_records(recs)[t].len()
                > 0,
    decreases recs.len(),
{
    if recs.len() > 0 {
        lemma_queues_of_records_nonempty(recs.drop_last());
        let m = queues_of_records(recs.drop_last());
        let w = queues_of_records(recs);
        assert forall|t: Seq<char>| #[trigger] w.contains_key(t) implies w[t].len() > 0 by {
            if m.contains_key(t) && w[t] == m[t] {
            }
        }
    }
}

/// Rebuild the topic mapping from scanned records, skipping any record
/// that fails to decode: a corrupt record never aborts the load.
pub fn queues_from_records(records: &Vec<(Vec<u8>, Vec<u8>)>) -> (r: StrMap<Vec<String>>)
    ensures
        r.wf(),
        r@ == queues_of_records(records.deep_view()),
{
    let ghost dv = records.deep_view();
    let mut r: StrMap<Vec<String>> = StrMap::new();
    let mut i: usize = 0;
    proof {
        assert(dv.take(0) =~= Seq::<(Seq<u8>, Seq<u8>)>::empty());
    }
    while i < records.len()
        invariant
            dv == records.deep_view(),
            dv.len() == records@.len(),
            0 <= i <= records@.len(),
            r.wf(),
            r@ == queues_of_records(dv.take(i as int)),
        decreases records@.len() - i,
    {
        proof {
            assert(dv.take(i + 1).drop_last() =~= dv.take(i as int));
            assert(dv.take(i + 1).last() == dv[i as int]);
            assert(dv[i as int].0 =~= records@[i as int].0@);
            assert(dv[i as int].1 =~= records@[i as int].1@);
        }
        let rec = &records[i];
        match core::str::from_utf8(rec.0.as_slice()) {
            Ok(kstr) => {
                match parse_queue_key(kstr) {
                    Some(topic) => {
                        match core::str::from_utf8(rec.1.as_slice()) {
                            Ok(vstr) => {
                                let msgs = split_messages(vstr);
                                proof {
                                    assert(msgs.deep_view().len() == msgs@.len());
                                }
                                if msgs.len() > 0 {
                                    r.insert(topic, msgs);
                                }
                            },
                            Err(_) => {},
                        }
                    },
                    None => {},
                }
            },
            Err(_) => {},
        }
        i += 1;
    }
    proof {
        assert(dv.take(dv.len() as int) =~= dv);
    }
    r
}

/// Rebuild the key-value mapping from scanned records, with the same
/// skip-on-decode-failure policy.
pub fn keyvalues_from_records(records: &Vec<(Vec<u8>, Vec<u8>)>) -> (r: StrMap<String>)
    ensures
        r.wf(),
        r@ == keyvalues_of_records(records.deep_view()),
{
    let ghost dv = records.deep_view();
    let mut r: StrMap<String> = StrMap::new();
    let mut i: usize = 0;
    proof {
        assert(dv.take(0) =~= Seq::<(Seq<u8>, Seq<u8>)>::empty());
    }
    while i < records.len()
        invariant
            dv == records.deep_view(),
            dv.len() == records@.len(),
            0 <= i <= records@.len(),
            r.wf(),
            r@ == keyvalues_of_records(dv.take(i as int)),
        decreases records@.len() - i,
    {
        proof {
            assert(dv.take(i + 1).drop_last() =~= dv.take(i as int));
            assert(dv.take(i + 1).last() == dv[i as int]);
            assert(dv[i as int].0 =~= records@[i as int].0@);
            assert(dv[i as int].1 =~= records@[i as int].1@);
        }
        let rec = &records[i];
        match core::str::from_utf8(rec.0.as_slice()) {
            Ok(kstr) => {
                match parse_kv_key(kstr) {
                    Some(entry) => {
                        match core::str::from_utf8(rec.1.as_slice()) {
                            Ok(vstr) => {
                                r.insert(entry, vstr.to_owned());
                            },
                            Err(_) => {},
                        }
                    },
                    None => {},
                }
            },
            Err(_) => {},
        }
        i += 1;
    }
    proof {
        assert(dv.take(dv.len() as int) =~= dv);
    }
    r
}

/// Startup load of the topic mapping: scan every record and rebuild.
pub fn load_queue(db: &sled::Db) -> (r: StrMap<Vec<String>>)
    ensures
        r.wf(),
        forall|t: Seq<char>| #[trigger] r@.contains_key(t) ==> r@[t].len() > 0,
{
    let records = db_scan(db);
    let r = queues_from_records(&records);
    proof {
        lemma_queues_of_records_nonempty(records.deep_view());
    }
    r
}

/// Startup load of the key-value mapping.
pub fn load_keyvalue(db: &sled::Db) -> (r: StrMap<String>)
    ensures
        r.wf(),
{
    let records = db_scan(db);
    keyvalues_from_records(&records)
}

/// Record-level round-trip law: the single record `save_queue` writes for
/// a topic with non-empty, separator-free messages describes exactly that
/// topic with exactly those messages.
pub proof fn lemma_record_round_trip(topic: Seq<char>, msgs: Seq<Seq<char>>)
    requires
        msgs.len() > 0,
        forall|i: int|
            0 <= i < msgs.len() ==> (#[trigger] msgs[i]).len() > 0 && no_newline(msgs[i]),
    ensures
        queues_of_records(
            seq![(encode_utf8(queue_key_spec(topic)), encode_utf8(joined_messages(msgs)))],
        ) == Map::<Seq<char>, Seq<Seq<char>>>::empty().insert(topic, msgs),
{
    broadcast use vstd::utf8::encode_utf8_valid_utf8, vstd::utf8::encode_utf8_decode_utf8;

    let kb = encode_utf8(queue_key_spec(topic));
    let vb = encode_utf8(joined_messages(msgs));
    let recs = seq![(kb, vb)];
    assert(recs.drop_last() =~= Seq::<(Seq<u8>, Seq<u8>)>::empty());
    assert(decode_utf8(kb) == queue_key_spec(topic));
    assert(decode_utf8(vb) == joined_messages(msgs));
    assert(("queue_"@ + topic).subrange(0, "queue_"@.len() as int) =~= "queue_"@);
    assert(is_queue_key(queue_key_spec(topic)));
    assert(queue_topic_of(queue_key_spec(topic)) =~= topic);
    crate::codec::lemma_codec_round_trip(msgs);
    assert(queues_of_records(recs) == queues_of_records(recs.drop_last()).insert(topic, msgs));
}

} // verus!
