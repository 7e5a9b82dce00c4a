//! The record store: mail records in an ordered key-value database, keyed
//! by the sixteen little-endian bytes of their identifier.

use crate::address::{string_views, AddressSet};
use crate::smtp::mail::Mail;
use crate::snowflake::{timestamp_of, to_timestamp};
use vstd::bytes::{
    lemma_auto_spec_u128_to_from_le_bytes, spec_u128_from_le_bytes, spec_u128_to_le_bytes,
    u128_to_le_bytes,
};
use vstd::prelude::*;

verus! {

/// The database handle of the `sled` crate.
#[verifier::external_type_specification]
#[verifier::external_body]
pub struct ExDb(sled::Db);

/// The error type of the `sled` crate.
#[verifier::external_type_specification]
#[verifier::external_body]
pub struct ExDbError(sled::Error);

/// The keys that a `sled` database holds, each with its value.
pub uninterp spec fn db_entries(db: sled::Db) -> Map<Seq<u8>, Seq<u8>>;

/// What a record is made of: sender addresses, recipient addresses, message
/// text and identifier.
pub type Record = (Seq<Seq<char>>, Seq<Seq<char>>, Seq<char>, u128);

/// The bytes that `bincode::serialize` gives for a record.
pub uninterp spec fn record_encoding(
    from: Seq<Seq<char>>,
    to: Seq<Seq<char>>,
    data: Seq<char>,
    id: u128,
) -> Seq<u8>;

/// The record that `bincode::deserialize` reads from `bytes`, where it
/// reads one.
pub uninterp spec fn record_decoding(bytes: Seq<u8>) -> Option<Record>;

/// Calls `sled::Tree::insert`. When it succeeds the database holds `value`
/// under `key`, and is otherwise as before.
#[verifier::external_body]
fn db_insert(db: &mut sled::Db, key: &[u8], value: Vec<u8>) -> (r: Result<(), sled::Error>)
    ensures
        r is Ok ==> db_entries(*final(db)) == db_entries(*old(db)).insert(key@, value@),
{
    db.insert(key, value).map(|_| ())
}

/// Calls `sled::Tree::get`. When it succeeds the result is the value that
/// the database holds under `key`, if it holds one.
#[verifier::external_body]
fn db_get(db: &sled::Db, key: &[u8]) -> (r: Result<Option<Vec<u8>>, sled::Error>)
    ensures
        r is Ok ==> match r->Ok_0 {
            Some(value) => db_entries(*db).contains_key(key@) && value@ == db_entries(*db)[key@],
            None => !db_entries(*db).contains_key(key@),
        },
{
    db.get(key).map(|found| found.map(|value| value.to_vec()))
}

/// Calls `sled::Tree::remove`. When it succeeds the database holds nothing
/// under `key`, and is otherwise as before; the result tells whether it
/// held something there.
#[verifier::external_body]
fn db_remove(db: &mut sled::Db, key: &[u8]) -> (r: Result<bool, sled::Error>)
    ensures
        r is Ok ==> r->Ok_0 == db_entries(*old(db)).contains_key(key@) && db_entries(*final(db))
            == db_entries(*old(db)).remove(key@),
{
    db.remove(key).map(|found| found.is_some())
}

/// Calls `sled::Tree::clear`. When it succeeds the database is empty.
#[verifier::external_body]
fn db_clear(db: &mut sled::Db) -> (r: Result<(), sled::Error>)
    ensures
        r is Ok ==> db_entries(*final(db)) == no_entries(),
{
    db.clear()
}

/// Walks the keys of the database with `sled::Tree::iter` and `Iter::keys`.
/// When no step fails, the result holds each key of the database once.
#[verifier::external_body]
fn db_keys(db: &sled::Db) -> (r: Result<Vec<Vec<u8>>, sled::Error>)
    ensures
        r is Ok ==> holds_keys(r->Ok_0@, db_entries(*db)),
{
    db.iter().keys().map(|step| step.map(|key| key.to_vec())).collect()
}

/// Calls `sled::Db::size_on_disk`. Nothing is claimed of the size.
#[verifier::external_body]
fn db_size_on_disk(db: &sled::Db) -> Result<u64, sled::Error> {
    db.size_on_disk()
}

/// Walks the database with `sled::Tree::iter`. When no step fails, the
/// result holds each key of the database once, with its value.
#[verifier::external_body]
fn db_list(db: &sled::Db) -> (r: Result<Vec<(Vec<u8>, Vec<u8>)>, sled::Error>)
    ensures
        r is Ok ==> lists(r->Ok_0@, db_entries(*db)),
{
    db.iter().map(|step| step.map(|(key, value)| (key.to_vec(), value.to_vec()))).collect()
}

/// Calls `bincode::serialize` on the four parts of a record, as a tuple.
/// The call succeeds: it writes into memory without a size limit, and
/// strings, vectors of strings and integers are values that it can always
/// write. What it gives is read back by `bincode::deserialize` as the same
/// record.
#[verifier::external_body]
fn encode_record(from: &Vec<String>, to: &Vec<String>, data: &String, id: u128) -> (r: Option<
    Vec<u8>,
>)
    ensures
        r is Some && r->Some_0@ == record_encoding(
            string_views(from@),
            string_views(to@),
            data@,
            id,
        ) && record_decoding(r->Some_0@) == Some(
            (string_views(from@), string_views(to@), data@, id),
        ),
{
    bincode::serialize(&(from, to, data, id)).ok()
}

/// Calls `bincode::deserialize` for the four parts of a record, as a tuple.
#[verifier::external_body]
fn decode_record(bytes: &[u8]) -> (r: Option<(Vec<String>, Vec<String>, String, u128)>)
    ensures
        match record_decoding(bytes@) {
            Some(record) => r is Some && string_views(r->Some_0.0@) == record.0 && string_views(
                r->Some_0.1@,
            ) == record.1 && r->Some_0.2@ == record.2 && r->Some_0.3 == record.3,
            None => r is None,
        },
{
    bincode::deserialize(bytes).ok()
}

/// The content of an empty database.
pub open spec fn no_entries() -> Map<Seq<u8>, Seq<u8>> {
    Map::empty()
}

/// The byte sequences that the vectors of `keys` hold.
pub open spec fn key_views(keys: Seq<Vec<u8>>) -> Seq<Seq<u8>> {
    Seq::new(keys.len(), |i: int| keys[i]@)
}

/// Whether `keys` holds each key of `entries` once, and nothing else.
pub open spec fn holds_keys(keys: Seq<Vec<u8>>, entries: Map<Seq<u8>, Seq<u8>>) -> bool {
    &&& key_views(keys).no_duplicates()
    &&& forall|key: Seq<u8>| entries.contains_key(key) <==> key_views(keys).contains(key)
}

/// Whether `list` holds each key of `entries` once, with its value.
pub open spec fn lists(list: Seq<(Vec<u8>, Vec<u8>)>, entries: Map<Seq<u8>, Seq<u8>>) -> bool {
    &&& forall|i: int|
        0 <= i < list.len() ==> entries.contains_key(#[trigger] list[i].0@) && entries[list[i].0@]
            == list[i].1@
    &&& forall|i: int, j: int|
        0 <= i < j < list.len() ==> #[trigger] list[i].0@ != #[trigger] list[j].0@
    &&& forall|key: Seq<u8>| #[trigger]
        entries.contains_key(key) ==> exists|i: int| 0 <= i < list.len() && list[i].0@ == key
}

/// The key under which the record with identifier `id` is stored: the
/// sixteen bytes of `id`, lowest first.
pub open spec fn key_of(id: u128) -> Seq<u8> {
    spec_u128_to_le_bytes(id)
}

/// The record that `entries` hold under identifier `id`, where they hold
/// one.
pub open spec fn stored_record(entries: Map<Seq<u8>, Seq<u8>>, id: u128) -> Option<Record> {
    if entries.contains_key(key_of(id)) {
        record_decoding(entries[key_of(id)])
    } else {
        None
    }
}

/// The record that a mail is stored as.
pub open spec fn record_of(mail: Mail) -> Record {
    (mail.from.entries(), mail.to.entries(), mail.data@, mail.id)
}

/// Whether `mail` is what the record `record` says.
pub open spec fn matches_record(mail: Mail, record: Record) -> bool {
    &&& mail.wf()
    &&& mail.from@ == record.0.to_set()
    &&& mail.to@ == record.1.to_set()
    &&& mail.data@ == record.2
    &&& mail.id == record.3
}

/// A record as it is found in the store, with its key.
#[derive(Debug, Clone)]
pub struct StoredMail {
    /// The key under which the record is stored.
    pub key: Vec<u8>,
    /// The record.
    pub mail: Mail,
}

/// Whether `item` is the record that `entries` hold under its key.
pub open spec fn holds_entry(item: StoredMail, entries: Map<Seq<u8>, Seq<u8>>) -> bool {
    &&& entries.contains_key(item.key@)
    &&& record_decoding(entries[item.key@]) is Some
    &&& matches_record(item.mail, record_decoding(entries[item.key@])->Some_0)
}

/// Whether `list` holds the record of each key of `entries`, once.
pub open spec fn is_listing(list: Seq<StoredMail>, entries: Map<Seq<u8>, Seq<u8>>) -> bool {
    &&& forall|i: int| 0 <= i < list.len() ==> holds_entry(#[trigger] list[i], entries)
    &&& forall|i: int, j: int|
        0 <= i < j < list.len() ==> #[trigger] list[i].key@ != #[trigger] list[j].key@
    &&& forall|key: Seq<u8>| #[trigger]
        entries.contains_key(key) ==> exists|i: int| 0 <= i < list.len() && list[i].key@ == key
}

/// Whether the records come in the order of their identifiers, the latest
/// first.
pub open spec fn most_recent_first(list: Seq<StoredMail>) -> bool {
    forall|i: int, j: int| 0 <= i < j < list.len() ==> list[i].mail.id >= list[j].mail.id
}

/// Whether some value of `entries` is not the bytes of a record.
pub open spec fn has_undecodable(entries: Map<Seq<u8>, Seq<u8>>) -> bool {
    exists|key: Seq<u8>| #[trigger] entries.contains_key(key) && record_decoding(entries[key]) is None
}

/// Whether a record with identifier `id` has outlived `lifetime_minutes`
/// when the clock reads `now` milliseconds.
pub open spec fn expired(id: u128, now: u128, lifetime_minutes: u16) -> bool {
    now - timestamp_of(id) > lifetime_minutes * 60_000
}

/// The keys of `entries` whose record has outlived `lifetime_minutes`.
pub open spec fn expired_keys(
    entries: Map<Seq<u8>, Seq<u8>>,
    now: u128,
    lifetime_minutes: u16,
) -> Set<Seq<u8>> {
    Set::new(
        |key: Seq<u8>|
            entries.contains_key(key) && match record_decoding(entries[key]) {
                Some(record) => expired(record.3, now, lifetime_minutes),
                None => false,
            },
    )
}

/// Where `x` stands in `a`, given that it stands in a rearrangement of `a`.
proof fn lemma_position_in_rearranged(a: Seq<StoredMail>, b: Seq<StoredMail>, i: int) -> (k: int)
    requires
        a.to_multiset() == b.to_multiset(),
        0 <= i < b.len(),
    ensures
        0 <= k < a.len(),
        a[k] == b[i],
{
    a.to_multiset_ensures();
    b.to_multiset_ensures();
    assert(b.contains(b[i]));
    assert(b.to_multiset().count(b[i]) > 0);
    assert(a.contains(b[i]));
    a.lemma_contains_to_index(b[i])
}

/// Two identifiers have the same key only if they are the same.
pub proof fn lemma_key_tells_identifier(a: u128, b: u128)
    requires
        key_of(a) == key_of(b),
    ensures
        a == b,
{
    lemma_auto_spec_u128_to_from_le_bytes();
    assert(spec_u128_to_le_bytes(a).len() == 16 && spec_u128_to_le_bytes(b).len() == 16);
    assert(spec_u128_from_le_bytes(key_of(a)) == a);
    assert(spec_u128_from_le_bytes(key_of(b)) == b);
}

/// A record whose identifier is greater than those of all records stored
/// so far goes under a key that is not in use: storing it adds one record
/// and replaces none.
pub proof fn lemma_fresh_identifier_adds_one_record(
    entries: Map<Seq<u8>, Seq<u8>>,
    id: u128,
    value: Seq<u8>,
)
    requires
        entries.dom().finite(),
        forall|key: Seq<u8>| #[trigger]
            entries.contains_key(key) ==> exists|earlier: u128|
                earlier < id && key == #[trigger] key_of(earlier),
    ensures
        !entries.contains_key(key_of(id)),
        entries.insert(key_of(id), value).dom().len() == entries.dom().len() + 1,
        forall|key: Seq<u8>| #[trigger]
            entries.contains_key(key) ==> entries.insert(key_of(id), value)[key] == entries[key],
{
    if entries.contains_key(key_of(id)) {
        let earlier = choose|earlier: u128| earlier < id && key_of(id) == #[trigger] key_of(earlier);
        lemma_key_tells_identifier(id, earlier);
    }
}

/// A rearrangement of a listing is a listing.
pub proof fn lemma_listing_rearranged(
    a: Seq<StoredMail>,
    b: Seq<StoredMail>,
    entries: Map<Seq<u8>, Seq<u8>>,
)
    requires
        is_listing(a, entries),
        a.to_multiset() == b.to_multiset(),
    ensures
        is_listing(b, entries),
{
    assert forall|i: int| 0 <= i < b.len() implies holds_entry(#[trigger] b[i], entries) by {
        let k = lemma_position_in_rearranged(a, b, i);
        assert(holds_entry(a[k], entries));
    }
    assert(a.no_duplicates()) by {
        assert forall|i: int, j: int| 0 <= i < a.len() && 0 <= j < a.len() && i != j implies a[i]
            != a[j] by {
            if i < j {
                assert(a[i].key@ != a[j].key@);
            } else {
                assert(a[j].key@ != a[i].key@);
            }
        }
    }
    a.lemma_multiset_has_no_duplicates();
    b.lemma_multiset_has_no_duplicates_conv();
    assert forall|i: int, j: int| 0 <= i < j < b.len() implies #[trigger] b[i].key@
        != #[trigger] b[j].key@ by {
        let ki = lemma_position_in_rearranged(a, b, i);
        let kj = lemma_position_in_rearranged(a, b, j);
        if b[i].key@ == b[j].key@ {
            if ki < kj {
                assert(a[ki].key@ != a[kj].key@);
            } else if kj < ki {
                assert(a[kj].key@ != a[ki].key@);
            }
            assert(b[i] == b[j]);
        }
    }
    assert forall|key: Seq<u8>| #[trigger] entries.contains_key(key) implies exists|i: int|
        0 <= i < b.len() && b[i].key@ == key by {
        let k = choose|k: int| 0 <= k < a.len() && a[k].key@ == key;
        let i = lemma_position_in_rearranged(b, a, k);
        assert(b[i].key@ == key);
    }
}

/// The records in the order of their identifiers, the latest first.
pub fn sort_by_recency(list: Vec<StoredMail>) -> (sorted: Vec<StoredMail>)
    ensures
        sorted@.to_multiset() == list@.to_multiset(),
        most_recent_first(sorted@),
{
    let mut rest = list;
    let mut sorted: Vec<StoredMail> = Vec::new();
    proof {
        assert(sorted@.to_multiset().add(rest@.to_multiset()) =~= list@.to_multiset()) by {
            sorted@.to_multiset_ensures();
            assert(sorted@.to_multiset().len() == 0);
            assert(forall|x: StoredMail| sorted@.to_multiset().count(x) == 0);
        }
    }
    while rest.len() > 0
        invariant
            sorted@.to_multiset().add(rest@.to_multiset()) == list@.to_multiset(),
            most_recent_first(sorted@),
        decreases rest.len(),
    {
        let ghost rest_before = rest@;
        let ghost sorted_before = sorted@;
        let item = rest.pop().unwrap();
        let mut p: usize = 0;
        while p < sorted.len() && sorted[p].mail.id >= item.mail.id
            invariant
                p <= sorted.len(),
                forall|q: int| 0 <= q < p ==> sorted@[q].mail.id >= item.mail.id,
            decreases sorted.len() - p,
        {
            p = p + 1;
        }
        sorted.insert(p, item);
        proof {
            assert(rest_before =~= rest@.push(item));
            vstd::seq_lib::to_multiset_build(rest@, item);
            vstd::seq_lib::to_multiset_insert(sorted_before, p as int, item);
            assert(sorted@.to_multiset().add(rest@.to_multiset()) =~= sorted_before.to_multiset().add(
                rest_before.to_multiset(),
            ));
            assert forall|i: int, j: int| 0 <= i < j < sorted@.len() implies sorted@[i].mail.id
                >= sorted@[j].mail.id by {
                if j < p {
                    assert(sorted@[i] == sorted_before[i] && sorted@[j] == sorted_before[j]);
                } else if j == p {
                    assert(sorted@[i] == sorted_before[i]);
                } else if i < p {
                    assert(sorted@[i] == sorted_before[i] && sorted@[j] == sorted_before[j - 1]);
                } else if i == p {
                    assert(sorted@[j] == sorted_before[j - 1]);
                    assert(sorted_before[p as int].mail.id < item.mail.id);
                } else {
                    assert(sorted@[i] == sorted_before[i - 1] && sorted@[j] == sorted_before[j
                        - 1]);
                }
            }
        }
    }
    proof {
        rest@.to_multiset_ensures();
        assert(forall|x: StoredMail| rest@.to_multiset().count(x) == 0);
        assert(sorted@.to_multiset() =~= sorted@.to_multiset().add(rest@.to_multiset()));
    }
    sorted
}

/// Whether a record with identifier `id` has outlived `lifetime_minutes`
/// when the clock reads `now` milliseconds.
pub fn is_expired(id: u128, now: u128, lifetime_minutes: u16) -> (b: bool)
    ensures
        b == expired(id, now, lifetime_minutes),
{
    let made = to_timestamp(id);
    let lifetime: u128 = (lifetime_minutes as u128) * 60_000;
    now > made && now - made > lifetime
}

/// Why a store operation failed.
#[derive(Debug)]
pub enum StoreError {
    /// The database reported an error.
    Storage(sled::Error),
    /// A stored value is not the bytes of a record.
    Decode,
}

/// The record store. What its contracts say of the database holds while the
/// store is the only one to use it.
#[derive(Debug)]
pub struct Store {
    db: sled::Db,
}

impl Store {
    /// The keys that the store holds, each with its value.
    pub closed spec fn entries(&self) -> Map<Seq<u8>, Seq<u8>> {
        db_entries(self.db)
    }

    /// The record stored under identifier `id`, where one is.
    pub open spec fn record(&self, id: u128) -> Option<Record> {
        stored_record(self.entries(), id)
    }

    /// A store over the database `db`.
    pub fn new(db: sled::Db) -> (s: Store)
        ensures
            s.entries() == db_entries(db),
    {
        Store { db }
    }

    /// Stores `mail` under its identifier, in place of what was there.
    pub fn insert(&mut self, mail: &Mail) -> (r: Result<(), StoreError>)
        ensures
            match r {
                Ok(()) => {
                    &&& final(self).entries() == old(self).entries().insert(
                        key_of(mail.id),
                        record_encoding(mail.from.entries(), mail.to.entries(), mail.data@, mail.id),
                    )
                    &&& final(self).record(mail.id) == Some(record_of(*mail))
                    &&& forall|other: u128|
                        other != mail.id ==> #[trigger] final(self).record(other) == old(self).record(other)
                },
                Err(StoreError::Storage(_)) => true,
                Err(StoreError::Decode) => false,
            },
    {
        proof {
            assert forall|other: u128| other != mail.id implies #[trigger] key_of(other)
                != key_of(mail.id) by {
                if key_of(other) == key_of(mail.id) {
                    lemma_key_tells_identifier(other, mail.id);
                }
            }
        }
        let bytes = encode_record(
            mail.from.as_vec(),
            mail.to.as_vec(),
            &mail.data,
            mail.id,
        ).unwrap();
        let key = u128_to_le_bytes(mail.id);
        match db_insert(&mut self.db, key.as_slice(), bytes) {
            Ok(()) => Ok(()),
            Err(e) => Err(StoreError::Storage(e)),
        }
    }

    /// The record with identifier `id`, if the store holds one.
    pub fn get(&self, id: u128) -> (r: Result<Option<Mail>, StoreError>)
        ensures
            match r {
                Ok(Some(mail)) => self.record(id) is Some && matches_record(
                    mail,
                    self.record(id)->Some_0,
                ),
                Ok(None) => !self.entries().contains_key(key_of(id)),
                Err(StoreError::Storage(_)) => true,
                Err(StoreError::Decode) => self.entries().contains_key(key_of(id)) && self.record(
                    id,
                ) is None,
            },
    {
        let key = u128_to_le_bytes(id);
        match db_get(&self.db, key.as_slice()) {
            Ok(Some(bytes)) => match decode_mail(bytes.as_slice()) {
                Some(mail) => Ok(Some(mail)),
                None => Err(StoreError::Decode),
            },
            Ok(None) => Ok(None),
            Err(e) => Err(StoreError::Storage(e)),
        }
    }

    /// Whether the store holds something under identifier `id`.
    pub fn contains(&self, id: u128) -> (r: Result<bool, StoreError>)
        ensures
            match r {
                Ok(held) => held == self.entries().contains_key(key_of(id)),
                Err(StoreError::Storage(_)) => true,
                Err(_) => false,
            },
    {
        let key = u128_to_le_bytes(id);
        match db_get(&self.db, key.as_slice()) {
            Ok(found) => Ok(found.is_some()),
            Err(e) => Err(StoreError::Storage(e)),
        }
    }

    /// Removes what the store holds under identifier `id`; tells whether it
    /// held something there.
    pub fn remove(&mut self, id: u128) -> (r: Result<bool, StoreError>)
        ensures
            match r {
                Ok(held) => held == old(self).entries().contains_key(key_of(id)) && final(self).entries() == old(self).entries().remove(key_of(id)),
                Err(StoreError::Storage(_)) => true,
                Err(_) => false,
            },
    {
        let key = u128_to_le_bytes(id);
        match db_remove(&mut self.db, key.as_slice()) {
            Ok(held) => Ok(held),
            Err(e) => Err(StoreError::Storage(e)),
        }
    }

    /// Removes everything that the store holds.
    pub fn clear(&mut self) -> (r: Result<(), StoreError>)
        ensures
            match r {
                Ok(()) => final(self).entries() == no_entries(),
                Err(StoreError::Storage(_)) => true,
                Err(_) => false,
            },
    {
        match db_clear(&mut self.db) {
            Ok(()) => Ok(()),
            Err(e) => Err(StoreError::Storage(e)),
        }
    }

    /// Number of keys that the store holds.
    pub fn len(&self) -> (r: Result<usize, StoreError>)
        ensures
            match r {
                Ok(n) => self.entries().dom().finite() && n == self.entries().dom().len(),
                Err(StoreError::Storage(_)) => true,
                Err(_) => false,
            },
    {
        match db_keys(&self.db) {
            Ok(keys) => {
                proof {
                    key_views(keys@).unique_seq_to_set();
                    assert(key_views(keys@).to_set() =~= self.entries().dom());
                }
                Ok(keys.len())
            },
            Err(e) => Err(StoreError::Storage(e)),
        }
    }

    /// Number of bytes that the database takes on disk, as it reports it.
    /// The number depends on what is on disk, so nothing is said of it; a
    /// failure is one of the database.
    pub fn size_on_disk(&self) -> (r: Result<u64, StoreError>)
        ensures
            r is Err ==> r->Err_0 is Storage,
    {
        reported_size(db_size_on_disk(&self.db))
    }

    /// All records of the store, in no particular order.
    pub fn list_all(&self) -> (r: Result<Vec<StoredMail>, StoreError>)
        ensures
            match r {
                Ok(list) => is_listing(list@, self.entries()),
                Err(StoreError::Storage(_)) => true,
                Err(StoreError::Decode) => has_undecodable(self.entries()),
            },
    {
        let raw = match db_list(&self.db) {
            Ok(raw) => raw,
            Err(e) => {
                return Err(StoreError::Storage(e));
            },
        };
        let mut list: Vec<StoredMail> = Vec::new();
        let mut i: usize = 0;
        while i < raw.len()
            invariant
                i <= raw.len(),
                lists(raw@, self.entries()),
                list@.len() == i,
                forall|j: int|
                    0 <= j < i ==> (#[trigger] list@[j]).key@ == raw@[j].0@ && holds_entry(
                        list@[j],
                        self.entries(),
                    ),
            decreases raw.len() - i,
        {
            assert(self.entries().contains_key(raw@[i as int].0@));
            match decode_mail(raw[i].1.as_slice()) {
                Some(mail) => {
                    list.push(StoredMail { key: raw[i].0.clone(), mail });
                    assert(list@[i as int].key@ == raw@[i as int].0@);
                },
                None => {
                    return Err(StoreError::Decode);
                },
            }
            i = i + 1;
        }
        proof {
            assert forall|key: Seq<u8>| #[trigger] self.entries().contains_key(key) implies exists|
                j: int,
            |
                0 <= j < list@.len() && list@[j].key@ == key by {
                let k = choose|k: int| 0 <= k < raw@.len() && raw@[k].0@ == key;
                assert(list@[k].key@ == key);
            }
            assert forall|a: int, b: int| 0 <= a < b < list@.len() implies #[trigger] list@[a].key@
                != #[trigger] list@[b].key@ by {
                assert(raw@[a].0@ != raw@[b].0@);
            }
        }
        Ok(list)
    }

    /// All records of the store in the order of their identifiers, the
    /// latest first. That is the order in which they were made, and not the
    /// order of their keys as bytes.
    pub fn scan_reverse(&self) -> (r: Result<Vec<StoredMail>, StoreError>)
        ensures
            match r {
                Ok(list) => is_listing(list@, self.entries()) && most_recent_first(list@),
                Err(StoreError::Storage(_)) => true,
                Err(StoreError::Decode) => has_undecodable(self.entries()),
            },
    {
        match self.list_all() {
            Ok(list) => {
                let sorted = sort_by_recency(list);
                proof {
                    lemma_listing_rearranged(list@, sorted@, self.entries());
                }
                Ok(sorted)
            },
            Err(e) => Err(e),
        }
    }

    /// Removes the records that have outlived `lifetime_minutes` when the
    /// clock reads `now` milliseconds; tells how many they were. Nothing is
    /// removed where some value of the store is not a record.
    pub fn sweep(&mut self, now: u128, lifetime_minutes: u16) -> (r: Result<usize, StoreError>)
        ensures
            match r {
                Ok(n) => {
                    &&& final(self).entries() == old(self).entries().remove_keys(
                        expired_keys(old(self).entries(), now, lifetime_minutes),
                    )
                    &&& expired_keys(old(self).entries(), now, lifetime_minutes).finite()
                    &&& n == expired_keys(old(self).entries(), now, lifetime_minutes).len()
                },
                Err(StoreError::Storage(_)) => true,
                Err(StoreError::Decode) => final(self).entries() == old(self).entries()
                    && has_undecodable(old(self).entries()),
            },
    {
        let list = match self.list_all() {
            Ok(list) => list,
            Err(e) => {
                return Err(e);
            },
        };
        let ghost before = self.entries();
        let ghost mut removed: Set<Seq<u8>> = Set::empty();
        let mut n: usize = 0;
        let mut i: usize = 0;
        assert(before.remove_keys(removed) =~= before);
        while i < list.len()
            invariant
                i <= list.len(),
                n <= i,
                is_listing(list@, before),
                self.entries() == before.remove_keys(removed),
                removed.finite(),
                removed.len() == n,
                forall|key: Seq<u8>|
                    removed.contains(key) <==> exists|j: int|
                        0 <= j < i && #[trigger] list@[j].key@ == key && expired(
                            list@[j].mail.id,
                            now,
                            lifetime_minutes,
                        ),
            decreases list.len() - i,
        {
            let ghost key = list@[i as int].key@;
            let ghost removed_before = removed;
            if is_expired(list[i].mail.id, now, lifetime_minutes) {
                match db_remove(&mut self.db, list[i].key.as_slice()) {
                    Ok(_) => {},
                    Err(e) => {
                        return Err(StoreError::Storage(e));
                    },
                }
                proof {
                    assert(!removed.contains(key)) by {
                        if removed.contains(key) {
                            let j = choose|j: int|
                                0 <= j < i && #[trigger] list@[j].key@ == key && expired(
                                    list@[j].mail.id,
                                    now,
                                    lifetime_minutes,
                                );
                            assert(list@[j].key@ != list@[i as int].key@);
                        }
                    }
                    removed = removed.insert(key);
                    assert(self.entries() =~= before.remove_keys(removed));
                }
                n = n + 1;
            }
            proof {
                assert forall|k: Seq<u8>| removed.contains(k) <==> exists|j: int|
                    0 <= j < i + 1 && #[trigger] list@[j].key@ == k && expired(
                        list@[j].mail.id,
                        now,
                        lifetime_minutes,
                    ) by {
                    if removed.contains(k) {
                        if removed_before.contains(k) {
                            let j = choose|j: int|
                                0 <= j < i && #[trigger] list@[j].key@ == k && expired(
                                    list@[j].mail.id,
                                    now,
                                    lifetime_minutes,
                                );
                            assert(0 <= j < i + 1 && list@[j].key@ == k);
                        } else {
                            assert(list@[i as int].key@ == k);
                        }
                    }
                    if exists|j: int|
                        0 <= j < i + 1 && #[trigger] list@[j].key@ == k && expired(
                            list@[j].mail.id,
                            now,
                            lifetime_minutes,
                        ) {
                        let j = choose|j: int|
                            0 <= j < i + 1 && #[trigger] list@[j].key@ == k && expired(
                                list@[j].mail.id,
                                now,
                                lifetime_minutes,
                            );
                        if j < i {
                            assert(removed_before.contains(k));
                        }
                    }
                }
            }
            i = i + 1;
        }
        proof {
            let wanted = expired_keys(before, now, lifetime_minutes);
            assert forall|k: Seq<u8>| removed.contains(k) <==> wanted.contains(k) by {
                if removed.contains(k) {
                    let j = choose|j: int|
                        0 <= j < i && #[trigger] list@[j].key@ == k && expired(
                            list@[j].mail.id,
                            now,
                            lifetime_minutes,
                        );
                    assert(holds_entry(list@[j], before));
                }
                if wanted.contains(k) {
                    assert(before.contains_key(k));
                    let j = choose|j: int| 0 <= j < list@.len() && list@[j].key@ == k;
                    assert(holds_entry(list@[j], before));
                }
            }
            assert(removed =~= wanted);
        }
        Ok(n)
    }

    /// Stores `mail` if it is worth storing; tells whether it was stored.
    pub fn persist(&mut self, mail: &Mail) -> (r: Result<bool, StoreError>)
        ensures
            match r {
                Ok(stored) => {
                    &&& stored == mail.storable()
                    &&& stored ==> final(self).entries() == old(self).entries().insert(
                        key_of(mail.id),
                        record_encoding(mail.from.entries(), mail.to.entries(), mail.data@, mail.id),
                    ) && final(self).record(mail.id) == Some(record_of(*mail))
                    &&& !stored ==> final(self).entries() == old(self).entries()
                },
                Err(StoreError::Storage(_)) => mail.storable(),
                Err(StoreError::Decode) => false,
            },
    {
        if !mail.should_persist() {
            return Ok(false);
        }
        match self.insert(mail) {
            Ok(()) => Ok(true),
            Err(e) => Err(e),
        }
    }
}

/// What the store reports of its size, given what the database reported:
/// the same number, or the failure of the database as a storage error.
pub fn reported_size(found: Result<u64, sled::Error>) -> (r: Result<u64, StoreError>)
    ensures
        match found {
            Ok(size) => r == Ok::<u64, StoreError>(size),
            Err(e) => r == Err::<u64, StoreError>(StoreError::Storage(e)),
        },
{
    match found {
        Ok(size) => Ok(size),
        Err(e) => Err(StoreError::Storage(e)),
    }
}

/// The mail that the bytes of a record hold.
pub fn decode_mail(bytes: &[u8]) -> (r: Option<Mail>)
    ensures
        match record_decoding(bytes@) {
            Some(record) => r is Some && matches_record(r->Some_0, record) && (
            record.0.no_duplicates() ==> r->Some_0.from.entries() == record.0) && (
            record.1.no_duplicates() ==> r->Some_0.to.entries() == record.1),
            None => r is None,
        },
{
    match decode_record(bytes) {
        Some((from, to, data, id)) => Some(
            Mail { from: AddressSet::from_vec(from), to: AddressSet::from_vec(to), data, id },
        ),
        None => None,
    }
}

} // verus!
