//! The staging store: records wait in it, under consecutive numeric keys,
//! until they are confirmed. One writer adds and replaces records in a
//! pending generation; readers see only the generation that was last
//! published, and a publish makes all pending changes visible at once.
//!
//! The store is an `evmap` map from keys to stored records. What the map
//! does is taken on trust, in the contracts of the wrappers below; what the
//! store does with it is proved.
use crate::encoding::{decode, encode, lemma_decode_encode, parse_record};
use crate::tx::{signature_valid, Tx, TxView};
use evmap::{ReadHandle, WriteHandle};
use std::hash::{BuildHasher, Hash};
use vstd::prelude::*;

verus! {

/// `evmap::ReadHandle`, a handle that reads a map. Verus sees nothing inside
/// it.
#[verifier::external_type_specification]
#[verifier::external_body]
#[verifier::reject_recursive_types(K)]
#[verifier::reject_recursive_types(V)]
#[verifier::reject_recursive_types(M)]
#[verifier::reject_recursive_types(S)]
pub struct ExReadHandle<K, V, M, S>(ReadHandle<K, V, M, S>) where K: Eq + Hash, S: BuildHasher;

/// The write handle of the store's `evmap` map, which reads as well. Verus
/// sees nothing inside it.
#[verifier::external_body]
pub struct StagingMap {
    handle: WriteHandle<usize, String>,
}

/// What the writer's side of the map holds: every change made through the
/// write handle, published or not. Each key of the store has one value.
pub uninterp spec fn pending_entries(w: &StagingMap) -> Map<usize, Seq<char>>;

/// What readers of the map see: the writer's side as it was at the last
/// refresh, empty before the first.
pub uninterp spec fn published_entries(w: &StagingMap) -> Map<usize, Seq<char>>;

/// A map without entries.
pub open spec fn no_entries() -> Map<usize, Seq<char>> {
    Map::empty()
}

/// `evmap::new` makes an empty map and gives a read handle and the write
/// handle of it.
#[verifier::external_body]
fn map_new() -> (handles: (ReadHandle<usize, String>, StagingMap))
    ensures
        pending_entries(&handles.1) == no_entries(),
        published_entries(&handles.1) == no_entries(),
{
    let (r, w) = evmap::new();
    (r, StagingMap { handle: w })
}

/// `ReadHandle::clone` gives one more read handle on the same map.
pub assume_specification<K, V, M, S>[ <ReadHandle<K, V, M, S> as Clone>::clone ](
    r: &ReadHandle<K, V, M, S>,
) -> ReadHandle<K, V, M, S> where K: Eq + Hash, S: BuildHasher
;

/// `WriteHandle::insert` adds a value to those of a key, on the writer's
/// side only. The contract is for a key that has no value yet.
#[verifier::external_body]
fn map_insert(w: &mut StagingMap, key: usize, value: String)
    requires
        !pending_entries(old(w)).contains_key(key),
    ensures
        pending_entries(final(w)) == pending_entries(old(w)).insert(key, value@),
        published_entries(final(w)) == published_entries(old(w)),
{
    w.handle.insert(key, value);
}

/// `WriteHandle::update` replaces the values of a key by one value, on the
/// writer's side only.
#[verifier::external_body]
fn map_update(w: &mut StagingMap, key: usize, value: String)
    ensures
        pending_entries(final(w)) == pending_entries(old(w)).insert(key, value@),
        published_entries(final(w)) == published_entries(old(w)),
{
    w.handle.update(key, value);
}

/// `WriteHandle::refresh` makes the writer's side visible to readers, all of
/// it at once.
#[verifier::external_body]
fn map_refresh(w: &mut StagingMap)
    ensures
        pending_entries(final(w)) == pending_entries(old(w)),
        published_entries(final(w)) == pending_entries(old(w)),
{
    w.handle.refresh();
}

/// `ReadHandle::get_one`, through the writer's own read handle: the value
/// that readers see under a key, if there is one.
#[verifier::external_body]
fn map_get(w: &StagingMap, key: usize) -> (value: Option<String>)
    ensures
        match value {
            Some(text) => published_entries(w).contains_key(key) && published_entries(w)[key]
                == text@,
            None => !published_entries(w).contains_key(key),
        },
{
    w.handle.get_one(&key).map(|text| text.clone())
}

/// `ReadHandle::len`, through the writer's own read handle: the number of
/// keys that readers see.
#[verifier::external_body]
fn map_len(w: &StagingMap) -> (n: usize)
    ensures
        n == published_entries(w).dom().len(),
{
    w.handle.len()
}

/// `ReadHandle::get_one` on a read handle of its own: the value that is
/// published under a key at the moment of the call. The writer may publish
/// at any time, so nothing is promised of it.
#[verifier::external_body]
fn reader_get(r: &ReadHandle<usize, String>, key: usize) -> Option<String> {
    r.get_one(&key).map(|text| text.clone())
}

/// `ReadHandle::len` on a read handle of its own: the number of keys that
/// are published at the moment of the call.
#[verifier::external_body]
fn reader_len(r: &ReadHandle<usize, String>) -> usize {
    r.len()
}

/// What a store holds, as mathematical values: the writer's pending
/// generation, the generation that readers see, and the key that the next
/// added record gets.
pub struct StoreView {
    pub pending: Map<usize, TxView>,
    pub published: Map<usize, TxView>,
    pub next: usize,
}

impl StoreView {
    /// The store without records.
    pub open spec fn empty() -> StoreView {
        StoreView { pending: Map::empty(), published: Map::empty(), next: 0 }
    }

    /// The keys in use are those below `next`, and nothing is published that
    /// is not pending.
    pub open spec fn wf(self) -> bool {
        &&& forall|k: usize| self.pending.contains_key(k) <==> k < self.next
        &&& forall|k: usize| self.published.contains_key(k) ==> k < self.next
        &&& self.published.dom().finite()
    }

    /// The store after a record was added: it is pending under the next key.
    pub open spec fn added(self, v: TxView) -> StoreView {
        StoreView {
            pending: self.pending.insert(self.next, v),
            published: self.published,
            next: (self.next + 1) as usize,
        }
    }

    /// The store after the pending record under `key` was replaced. A key
    /// that is not in use changes nothing.
    pub open spec fn updated(self, key: usize, v: TxView) -> StoreView {
        if key < self.next {
            StoreView { pending: self.pending.insert(key, v), published: self.published, next: self.next }
        } else {
            self
        }
    }

    /// The store after a publish: readers see the pending generation.
    pub open spec fn refreshed(self) -> StoreView {
        StoreView { pending: self.pending, published: self.pending, next: self.next }
    }

    /// What a reader finds under `key`.
    pub open spec fn lookup(self, key: usize) -> Option<TxView> {
        if self.published.contains_key(key) {
            Some(self.published[key])
        } else {
            None
        }
    }
}

/// A record that was added is found under its key after the next publish,
/// and not before.
pub proof fn lemma_visible_after_publish(s: StoreView, v: TxView)
    requires
        s.wf(),
    ensures
        s.added(v).lookup(s.next) is None,
        s.added(v).refreshed().lookup(s.next) == Some(v),
{
}

/// Adding or replacing a pending record changes nothing that readers see:
/// every lookup gives what it gave before, until the next publish.
pub proof fn lemma_pending_is_invisible(s: StoreView, key: usize, v: TxView)
    ensures
        s.added(v).published == s.published,
        s.updated(key, v).published == s.published,
        forall|k: usize| s.added(v).lookup(k) == s.lookup(k),
        forall|k: usize| s.updated(key, v).lookup(k) == s.lookup(k),
{
}

/// A publish makes every pending record visible, and nothing else: after it
/// a lookup finds exactly what was pending.
pub proof fn lemma_publish_is_atomic(s: StoreView, key: usize)
    ensures
        s.refreshed().lookup(key) == (if s.pending.contains_key(key) {
            Some(s.pending[key])
        } else {
            None
        }),
        s.refreshed().refreshed() == s.refreshed(),
{
}

/// The records that stored texts stand for.
pub closed spec fn records(entries: Map<usize, Seq<char>>) -> Map<usize, TxView> {
    Map::new(|k: usize| entries.contains_key(k), |k: usize| parse_record(entries[k]).unwrap())
}

/// Whether every stored text is the stored form of a record.
pub closed spec fn all_decode(entries: Map<usize, Seq<char>>) -> bool {
    forall|k: usize| entries.contains_key(k) ==> parse_record(#[trigger] entries[k]) is Some
}

/// The staging store, with its one writer.
pub struct Mempool {
    r: ReadHandle<usize, String>,
    map: StagingMap,
    nonce: usize,
}

/// A reader of the staging store. It can be cloned and given away; it sees
/// what is published at the moment it looks.
#[derive(Clone)]
pub struct MempoolReader {
    handle: ReadHandle<usize, String>,
}

impl View for Mempool {
    type V = StoreView;

    closed spec fn view(&self) -> StoreView {
        StoreView {
            pending: records(pending_entries(&self.map)),
            published: records(published_entries(&self.map)),
            next: self.nonce,
        }
    }
}

impl Mempool {
    /// The invariant of the store: its keys are consecutive, and it holds
    /// nothing but stored forms of records.
    pub closed spec fn wf(&self) -> bool {
        &&& self@.wf()
        &&& all_decode(pending_entries(&self.map))
        &&& all_decode(published_entries(&self.map))
        &&& pending_entries(&self.map).dom().finite()
    }

    /// A valid store has a valid view.
    pub proof fn lemma_view_wf(&self)
        requires
            self.wf(),
        ensures
            self@.wf(),
    {
    }

    /// An empty store.
    pub fn new() -> (m: Mempool)
        ensures
            m.wf(),
            m@ == StoreView::empty(),
    {
        let (r, map) = map_new();
        let m = Mempool { r, map, nonce: 0 };
        proof {
            assert(m@.pending =~= Map::<usize, TxView>::empty());
            assert(m@.published =~= Map::<usize, TxView>::empty());
            assert(m@.published.dom() =~= Set::<usize>::empty());
        }
        m
    }

    /// Adds a record to the pending generation, under the next key. Readers
    /// do not see it before the next publish.
    pub fn add(&mut self, tx: &Tx)
        requires
            old(self).wf(),
            old(self)@.next < usize::MAX,
        ensures
            final(self).wf(),
            final(self)@ == old(self)@.added(tx@),
    {
        let key = self.nonce;
        proof {
            lemma_decode_encode(tx@);
            assert(!pending_entries(&self.map).contains_key(key)) by {
                assert(self@.pending.contains_key(key) == pending_entries(&self.map).contains_key(
                    key,
                ));
            }
        }
        map_insert(&mut self.map, key, encode(tx));
        self.nonce = key + 1;
        proof {
            assert(self@.pending =~= old(self)@.pending.insert(key, tx@));
            assert(self@.published =~= old(self)@.published);
            assert forall|k: usize| self@.pending.contains_key(k) <==> k < self@.next by {
                assert(old(self)@.pending.contains_key(k) <==> k < key);
            }
        }
    }

    /// Publishes: what was pending becomes what readers see, all at once.
    pub fn refresh(&mut self)
        requires
            old(self).wf(),
        ensures
            final(self).wf(),
            final(self)@ == old(self)@.refreshed(),
    {
        map_refresh(&mut self.map);
        proof {
            assert(self@.pending == old(self)@.pending);
            assert(self@.published == old(self)@.pending);
            assert(self@.published.dom() =~= pending_entries(&self.map).dom());
            assert forall|k: usize| self@.published.contains_key(k) implies k < self@.next by {
                assert(old(self)@.pending.contains_key(k));
            }
        }
    }

    /// Replaces the pending record under `nonce`. Readers do not see the
    /// change before the next publish. A key that is not in use changes
    /// nothing.
    pub fn update(&mut self, nonce: usize, tx: &Tx)
        requires
            old(self).wf(),
        ensures
            final(self).wf(),
            final(self)@ == old(self)@.updated(nonce, tx@),
    {
        if nonce < self.nonce {
            proof {
                lemma_decode_encode(tx@);
            }
            map_update(&mut self.map, nonce, encode(tx));
            proof {
                assert(self@.pending =~= old(self)@.pending.insert(nonce, tx@));
                assert(self@.published =~= old(self)@.published);
                assert forall|k: usize| self@.pending.contains_key(k) <==> k < self@.next by {
                    assert(old(self)@.pending.contains_key(k) <==> k < old(self)@.next);
                }
            }
        }
    }

    /// The record that readers see under `key`.
    pub fn get(&self, key: usize) -> (r: Option<Tx>)
        requires
            self.wf(),
        ensures
            match r {
                Some(tx) => self@.lookup(key) == Some(tx@),
                None => self@.lookup(key) is None,
            },
    {
        match map_get(&self.map, key) {
            Some(text) => {
                assert(parse_record(published_entries(&self.map)[key]) is Some);
                decode(text.as_str())
            },
            None => None,
        }
    }

    /// The key that the next added record gets.
    pub fn next_key(&self) -> (key: usize)
        ensures
            key == self@.next,
    {
        self.nonce
    }

    /// The number of keys that readers see.
    pub fn len(&self) -> (n: usize)
        requires
            self.wf(),
        ensures
            n == self@.published.dom().len(),
    {
        proof {
            assert(self@.published.dom() =~= published_entries(&self.map).dom());
        }
        map_len(&self.map)
    }

    /// A reader of this store, to be given to another thread.
    pub fn reader(&self) -> MempoolReader {
        MempoolReader { handle: self.r.clone() }
    }

    /// Checks the signature of every key from zero up to the number of
    /// published keys: for each whether its record is valid, or `None` where
    /// readers see no record under it.
    pub fn iter_read(&self) -> (checks: Vec<Option<bool>>)
        requires
            self.wf(),
        ensures
            checks@.len() == self@.published.dom().len(),
            forall|k: usize|
                k < checks@.len() ==> #[trigger] checks@[k as int] == match self@.lookup(k) {
                    Some(v) => Some(signature_valid(v)),
                    None => None,
                },
    {
        let n = self.len();
        let mut checks: Vec<Option<bool>> = Vec::new();
        let mut i: usize = 0;
        while i < n
            invariant
                self.wf(),
                i <= n,
                checks@.len() == i,
                forall|k: usize|
                    k < i ==> #[trigger] checks@[k as int] == match self@.lookup(k) {
                        Some(v) => Some(signature_valid(v)),
                        None => None,
                    },
            decreases n - i,
        {
            let check = match self.get(i) {
                Some(tx) => Some(tx.validate().is_ok()),
                None => None,
            };
            checks.push(check);
            i += 1;
        }
        checks
    }
}

/// Whether a record was found that is valid and has not been confirmed.
pub open spec fn valid_and_new(found: Option<TxView>) -> bool {
    match found {
        Some(v) => signature_valid(v) && v.conf == 0,
        None => false,
    }
}

/// A store with `count` random records, all published: each is valid and has
/// not been confirmed.
pub fn create_txs(count: usize) -> (m: Mempool)
    ensures
        m.wf(),
        m@.next == count,
        m@.published == m@.pending,
        forall|k: usize| k < count ==> valid_and_new(#[trigger] m@.lookup(k)),
{
    let mut m = Mempool::new();
    let mut i: usize = 0;
    while i < count
        invariant
            m.wf(),
            i <= count,
            m@.next == i,
            m@.published == Map::<usize, TxView>::empty(),
            forall|k: usize|
                k < i ==> m@.pending.contains_key(k) && signature_valid(
                    #[trigger] m@.pending[k],
                ) && m@.pending[k].conf == 0,
        decreases count - i,
    {
        let tx = Tx::random();
        m.add(&tx);
        i += 1;
    }
    m.refresh();
    m
}

/// A store with a hundred thousand random records, all published.
pub fn create_100000_txs() -> (m: Mempool)
    ensures
        m.wf(),
        m@.next == 100000,
        m@.published == m@.pending,
        forall|k: usize| k < 100000 ==> valid_and_new(#[trigger] m@.lookup(k)),
{
    create_txs(100000)
}

/// What was found under a key, as mathematical values: the record that the
/// text is the stored form of, where there is a text and it is one.
pub open spec fn record_of_text(found: Option<String>) -> Option<TxView> {
    match found {
        Some(text) => parse_record(text@),
        None => None,
    }
}

/// The record that a reader found, from the text that the map gave it: none
/// where the map gave none, or where the text is no stored form.
pub fn stored_record(found: Option<String>) -> (r: Option<Tx>)
    ensures
        match r {
            Some(tx) => record_of_text(found) == Some(tx@),
            None => record_of_text(found) is None,
        },
{
    match found {
        Some(text) => decode(text.as_str()),
        None => None,
    }
}

impl MempoolReader {
    /// The record that is published under `key` at the moment of the call, if
    /// there is one that can be read: what `stored_record` makes of the text
    /// that the map gives. The writer may publish at any time, so two calls
    /// may differ, and nothing is promised of one.
    pub fn get(&self, key: usize) -> (r: Option<Tx>) {
        stored_record(reader_get(&self.handle, key))
    }

    /// The number of keys that are published at the moment of the call.
    pub fn len(&self) -> usize {
        reader_len(&self.handle)
    }
}

} // verus!
