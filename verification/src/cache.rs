use crate::index::dec_index;
use crate::index::enc_index;
use crate::index::encode_index;
use crate::index::lemma_index_round_trip;
use crate::index::views_of;
use crate::index::EntryView;
use crate::index::Index;
use crate::index::IndexEntry;
use crate::source::File;
use crate::token::token_eq;
use crate::token::Token;
use crate::token::TokenView;
use vstd::prelude::*;
use vstd::string::StringExecFns;

verus! {

// ---------------------------------------------------------------------------
// The mathematical model of a store: an ordered list of entries with
// pairwise-distinct keys, looked up by first match.
// ---------------------------------------------------------------------------
/// First entry carrying key `k`, if any.
pub open spec fn lookup(es: Seq<EntryView>, k: Seq<char>) -> Option<EntryView>
    decreases es.len(),
{
    if es.len() == 0 {
        None
    } else if es[0].key == k {
        Some(es[0])
    } else {
        lookup(es.drop_first(), k)
    }
}

pub open spec fn has_key(es: Seq<EntryView>, k: Seq<char>) -> bool {
    lookup(es, k) is Some
}

pub open spec fn keys_unique(es: Seq<EntryView>) -> bool {
    forall|i: int, j: int|
        0 <= i < j < es.len() ==> (#[trigger] es[i]).key != (#[trigger] es[j]).key
}

/// Insert-or-replace: a present key is overwritten in place, an absent one
/// is appended.
pub open spec fn store(es: Seq<EntryView>, e: EntryView) -> Seq<EntryView>
    decreases es.len(),
{
    if es.len() == 0 {
        seq![e]
    } else if es[0].key == e.key {
        seq![e] + es.drop_first()
    } else {
        seq![es[0]] + store(es.drop_first(), e)
    }
}

/// All entries stored in order onto `acc`, later keys overwriting earlier.
pub open spec fn store_all(acc: Seq<EntryView>, es: Seq<EntryView>) -> Seq<EntryView>
    decreases es.len(),
{
    if es.len() == 0 {
        acc
    } else {
        store_all(store(acc, es[0]), es.drop_first())
    }
}

/// The token the store knows for `k`: `Unknown` when the key is absent.
pub open spec fn stored_token(es: Seq<EntryView>, k: Seq<char>) -> TokenView {
    match lookup(es, k) {
        Some(e) => e.token,
        None => TokenView::Unknown,
    }
}

/// Where the blob for key `k` lives under `root`.
pub open spec fn path_join(root: Seq<char>, key: Seq<char>) -> Seq<char> {
    root.push('/') + key
}

pub proof fn lemma_lookup_store(es: Seq<EntryView>, e: EntryView, k: Seq<char>)
    ensures
        lookup(store(es, e), k) == if k == e.key {
            Some(e)
        } else {
            lookup(es, k)
        },
    decreases es.len(),
{
    if es.len() == 0 {
        let r = store(es, e);
        assert(r[0] == e);
        assert(r.drop_first() =~= Seq::<EntryView>::empty());
    } else if es[0].key == e.key {
        let r = store(es, e);
        assert(r[0] == e);
        assert(r.drop_first() =~= es.drop_first());
    } else {
        let r = store(es, e);
        assert(r[0] == es[0]);
        assert(r.drop_first() =~= store(es.drop_first(), e));
        lemma_lookup_store(es.drop_first(), e, k);
    }
}

/// Every element of `store(es, e)` is `e` or one of the old elements.
proof fn lemma_store_elems(es: Seq<EntryView>, e: EntryView)
    ensures
        forall|i: int|
            0 <= i < store(es, e).len() ==> (#[trigger] store(es, e)[i]) == e || es.contains(
                store(es, e)[i],
            ),
    decreases es.len(),
{
    let r = store(es, e);
    if es.len() == 0 {
    } else if es[0].key == e.key {
        assert forall|i: int| 0 <= i < r.len() implies (#[trigger] r[i]) == e || es.contains(
            r[i],
        ) by {
            if i > 0 {
                assert(r[i] == es[i]);
                assert(es.contains(es[i]));
            }
        }
    } else {
        lemma_store_elems(es.drop_first(), e);
        assert forall|i: int| 0 <= i < r.len() implies (#[trigger] r[i]) == e || es.contains(
            r[i],
        ) by {
            if i == 0 {
                assert(r[0] == es[0]);
                assert(es.contains(es[0]));
            } else {
                let rr = store(es.drop_first(), e);
                assert(r[i] == rr[i - 1]);
                if rr[i - 1] != e {
                    assert(es.drop_first().contains(rr[i - 1]));
                    let w = choose|w: int|
                        0 <= w < es.drop_first().len() && es.drop_first()[w] == rr[i - 1];
                    assert(es[w + 1] == rr[i - 1]);
                    assert(es.contains(es[w + 1]));
                }
            }
        }
    }
}

pub proof fn lemma_store_unique(es: Seq<EntryView>, e: EntryView)
    requires
        keys_unique(es),
    ensures
        keys_unique(store(es, e)),
    decreases es.len(),
{
    let r = store(es, e);
    if es.len() == 0 {
    } else if es[0].key == e.key {
        assert forall|i: int, j: int|
            0 <= i < j < r.len() implies (#[trigger] r[i]).key != (#[trigger] r[j]).key by {
            assert(r[j] == es[j]);
            if i == 0 {
                assert(r[0] == e);
                assert(es[0].key != es[j].key);
            } else {
                assert(r[i] == es[i]);
            }
        }
    } else {
        assert(keys_unique(es.drop_first())) by {
            assert forall|i: int, j: int|
                0 <= i < j < es.drop_first().len() implies (#[trigger] es.drop_first()[i]).key != (
            #[trigger] es.drop_first()[j]).key by {
                assert(es.drop_first()[i] == es[i + 1]);
                assert(es.drop_first()[j] == es[j + 1]);
            }
        }
        lemma_store_unique(es.drop_first(), e);
        lemma_store_elems(es.drop_first(), e);
        let rr = store(es.drop_first(), e);
        assert forall|i: int, j: int|
            0 <= i < j < r.len() implies (#[trigger] r[i]).key != (#[trigger] r[j]).key by {
            if i == 0 {
                assert(r[0] == es[0]);
                assert(r[j] == rr[j - 1]);
                if rr[j - 1] == e {
                } else {
                    assert(es.drop_first().contains(rr[j - 1]));
                    let w = choose|w: int|
                        0 <= w < es.drop_first().len() && es.drop_first()[w] == rr[j - 1];
                    assert(es[w + 1] == rr[j - 1]);
                    assert(es[0].key != es[w + 1].key);
                }
            } else {
                assert(r[i] == rr[i - 1]);
                assert(r[j] == rr[j - 1]);
            }
        }
    }
}

/// When the first match for `e.key` is at position `i`, storing `e`
/// overwrites exactly that position.
proof fn lemma_store_update(es: Seq<EntryView>, e: EntryView, i: int)
    requires
        0 <= i < es.len(),
        es[i].key == e.key,
        forall|j: int| 0 <= j < i ==> (#[trigger] es[j]).key != e.key,
    ensures
        store(es, e) == es.update(i, e),
    decreases es.len(),
{
    if i == 0 {
        assert(store(es, e) =~= es.update(0, e));
    } else {
        assert(es[0].key != e.key);
        assert(es.drop_first()[i - 1] == es[i]);
        assert forall|j: int| 0 <= j < i - 1 implies (#[trigger] es.drop_first()[j]).key
            != e.key by {
            assert(es.drop_first()[j] == es[j + 1]);
        }
        lemma_store_update(es.drop_first(), e, i - 1);
        assert(seq![es[0]] + es.drop_first().update(i - 1, e) =~= es.update(i, e));
    }
}

/// When no entry carries `e.key`, storing `e` appends it.
proof fn lemma_store_append(es: Seq<EntryView>, e: EntryView)
    requires
        forall|j: int| 0 <= j < es.len() ==> (#[trigger] es[j]).key != e.key,
    ensures
        store(es, e) == es.push(e),
    decreases es.len(),
{
    if es.len() == 0 {
        assert(store(es, e) =~= es.push(e));
    } else {
        assert forall|j: int| 0 <= j < es.drop_first().len() implies (#[trigger] es.drop_first()[j]).key
            != e.key by {
            assert(es.drop_first()[j] == es[j + 1]);
        }
        lemma_store_append(es.drop_first(), e);
        assert(seq![es[0]] + es.drop_first().push(e) =~= es.push(e));
    }
}

/// Storing entries whose keys collide with nothing simply appends them.
proof fn lemma_store_all_unique(acc: Seq<EntryView>, es: Seq<EntryView>)
    requires
        keys_unique(acc + es),
    ensures
        store_all(acc, es) == acc + es,
    decreases es.len(),
{
    if es.len() == 0 {
        assert(acc + es =~= acc);
    } else {
        let e = es[0];
        assert forall|j: int| 0 <= j < acc.len() implies (#[trigger] acc[j]).key != e.key by {
            assert((acc + es)[j] == acc[j]);
            assert((acc + es)[acc.len() as int] == e);
        }
        lemma_store_append(acc, e);
        assert(acc.push(e) + es.drop_first() =~= acc + es);
        lemma_store_all_unique(acc.push(e), es.drop_first());
        assert(store_all(acc, es) == store_all(store(acc, e), es.drop_first()));
    }
}

/// Persistence round trip at the store level: a store always keeps its
/// keys pairwise distinct, and opening an index holding exactly such
/// entries reproduces them unchanged — so what `close` serializes, reopened
/// after `dec_index` reads it back, is the same set of entries, `Unknown`
/// tokens included.
pub proof fn lemma_reopen_preserves_entries(es: Seq<EntryView>)
    requires
        keys_unique(es),
    ensures
        store_all(Seq::<EntryView>::empty(), es) == es,
{
    assert(Seq::<EntryView>::empty() + es =~= es);
    lemma_store_all_unique(Seq::<EntryView>::empty(), es);
}

/// A scan that finds the first match at `i` agrees with `lookup`.
proof fn lemma_lookup_at(es: Seq<EntryView>, k: Seq<char>, i: int)
    requires
        0 <= i < es.len(),
        es[i].key == k,
        forall|j: int| 0 <= j < i ==> (#[trigger] es[j]).key != k,
    ensures
        lookup(es, k) == Some(es[i]),
    decreases es.len(),
{
    if i > 0 {
        assert(es.drop_first()[i - 1] == es[i]);
        assert forall|j: int| 0 <= j < i - 1 implies (#[trigger] es.drop_first()[j]).key != k by {
            assert(es.drop_first()[j] == es[j + 1]);
        }
        lemma_lookup_at(es.drop_first(), k, i - 1);
    }
}

/// A scan that finds no match agrees with `lookup`.
proof fn lemma_lookup_none(es: Seq<EntryView>, k: Seq<char>)
    requires
        forall|j: int| 0 <= j < es.len() ==> (#[trigger] es[j]).key != k,
    ensures
        lookup(es, k) is None,
    decreases es.len(),
{
    if es.len() > 0 {
        assert forall|j: int| 0 <= j < es.drop_first().len() implies (#[trigger] es.drop_first()[j]).key
            != k by {
            assert(es.drop_first()[j] == es[j + 1]);
        }
        lemma_lookup_none(es.drop_first(), k);
    }
}

/// Every element of a filtered sequence is an element of the original.
proof fn lemma_filter_sub(es: Seq<EntryView>, pred: spec_fn(EntryView) -> bool)
    ensures
        forall|i: int|
            0 <= i < es.filter(pred).len() ==> es.contains(#[trigger] es.filter(pred)[i]),
    decreases es.len(),
{
    reveal(Seq::filter);
    if es.len() > 0 {
        let s = es.drop_last();
        lemma_filter_sub(s, pred);
        assert forall|i: int| 0 <= i < es.filter(pred).len() implies es.contains(
            #[trigger] es.filter(pred)[i],
        ) by {
            if i < s.filter(pred).len() {
                assert(es.filter(pred)[i] == s.filter(pred)[i]);
                assert(s.contains(s.filter(pred)[i]));
                let w = choose|w: int| 0 <= w < s.len() && s[w] == s.filter(pred)[i];
                assert(es[w] == s[w]);
            } else {
                assert(es.filter(pred)[i] == es.last());
                assert(es[es.len() - 1] == es.last());
            }
        }
    }
}

/// Filtering keeps keys pairwise distinct.
pub proof fn lemma_filter_unique(es: Seq<EntryView>, pred: spec_fn(EntryView) -> bool)
    requires
        keys_unique(es),
    ensures
        keys_unique(es.filter(pred)),
    decreases es.len(),
{
    reveal(Seq::filter);
    if es.len() > 0 {
        let s = es.drop_last();
        let x = es.last();
        assert(keys_unique(s)) by {
            assert forall|i: int, j: int|
                0 <= i < j < s.len() implies (#[trigger] s[i]).key != (#[trigger] s[j]).key by {
                assert(s[i] == es[i]);
                assert(s[j] == es[j]);
            }
        }
        lemma_filter_unique(s, pred);
        lemma_filter_sub(s, pred);
        if pred(x) {
            let f = s.filter(pred);
            assert(es.filter(pred) == f.push(x));
            assert forall|i: int, j: int|
                0 <= i < j < f.push(x).len() implies (#[trigger] f.push(x)[i]).key != (
            #[trigger] f.push(x)[j]).key by {
                if j == f.len() {
                    assert(f.push(x)[j] == x);
                    assert(f.push(x)[i] == f[i]);
                    assert(s.contains(f[i]));
                    let w = choose|w: int| 0 <= w < s.len() && s[w] == f[i];
                    assert(es[w] == s[w]);
                    assert(es[es.len() - 1] == x);
                    assert(es[w].key != x.key);
                } else {
                    assert(f.push(x)[i] == f[i]);
                    assert(f.push(x)[j] == f[j]);
                }
            }
        }
    }
}

// ---------------------------------------------------------------------------
// The store itself.
// ---------------------------------------------------------------------------
/// The per-destination cache store: a root directory, the key-indexed
/// entries loaded from the persisted index, and the set of keys looked up
/// during the current run.
pub struct Loader {
    root: String,
    entries: Vec<IndexEntry>,
    used_entries: Vec<String>,
}

/// A view of one key's currently-known state, bound at lookup time.
pub struct Entry {
    key: String,
    current_token: Token,
}

/// An immutable handle to a cached blob: where it lives, the file name it
/// should carry in a destination, and whether this run changed it.
pub struct Reference {
    pub path: String,
    pub name: String,
    pub changed: bool,
}

/// The capability to overwrite one key's entry, returned only when a
/// mismatch was detected; exchanged exactly once for a [`Reference`].
pub struct EntryUpdater {
    key: String,
    token: Token,
}

pub enum UpdateResult {
    Mismatch(EntryUpdater),
    Match(Reference),
}

impl Loader {
    /// The entries currently in the store, in index order.
    pub closed spec fn model(&self) -> Seq<EntryView> {
        views_of(self.entries@)
    }

    /// The keys looked up so far in this run.
    pub closed spec fn touched(&self) -> Seq<Seq<char>> {
        self.used_entries@.map_values(|s: String| s@)
    }

    pub closed spec fn root_spec(&self) -> Seq<char> {
        self.root@
    }

    pub closed spec fn wf(&self) -> bool {
        keys_unique(self.model())
    }

    /// Opens a store over `root` from a previously parsed index; duplicate
    /// keys in the file resolve to the last occurrence.
    pub fn open(root: String, index: Index) -> (r: Loader)
        ensures
            r.wf(),
            r.model() == store_all(Seq::<EntryView>::empty(), views_of(index.entries@)),
            r.touched() == Seq::<Seq<char>>::empty(),
            r.root_spec() == root@,
    {
        let mut src = index.entries;
        let ghost original = src@;
        let mut entries: Vec<IndexEntry> = Vec::new();
        proof {
            assert(views_of(entries@) =~= Seq::<EntryView>::empty());
        }
        while src.len() > 0
            invariant
                keys_unique(views_of(entries@)),
                store_all(views_of(entries@), views_of(src@)) == store_all(
                    Seq::<EntryView>::empty(),
                    views_of(original),
                ),
            decreases src@.len(),
        {
            let ghost pre_src = src@;
            let ghost pre_entries = views_of(entries@);
            let e = src.remove(0);
            proof {
                assert(views_of(src@) =~= views_of(pre_src).drop_first());
                assert(views_of(pre_src)[0] == e@);
                lemma_store_unique(pre_entries, e@);
            }
            store_exec(&mut entries, e);
        }
        proof {
            assert(views_of(src@).len() == 0);
        }
        let loader = Loader { root, entries, used_entries: Vec::new() };
        proof {
            assert(loader.touched() =~= Seq::<Seq<char>>::empty());
        }
        loader
    }

    /// Marks `key` touched and returns its currently-known state
    /// (`Unknown` when the key is absent from the index).
    pub fn entry(&mut self, key: String) -> (r: Entry)
        ensures
            final(self).model() == old(self).model(),
            final(self).root_spec() == old(self).root_spec(),
            final(self).wf() == old(self).wf(),
            final(self).touched() == old(self).touched().push(key@),
            r.key_spec() == key@,
            r.token_spec() == stored_token(old(self).model(), key@),
    {
        let current_token = match self.find_index(&key) {
            Some(i) => self.entries[i].token.dup(),
            None => Token::Unknown,
        };
        let ghost pre = self.used_entries@;
        self.used_entries.push(key.clone());
        proof {
            assert(self.used_entries@.map_values(|s: String| s@) =~= pre.map_values(
                |s: String| s@,
            ).push(key@));
        }
        Entry { key, current_token }
    }

    /// Position of the first entry carrying `key`, agreeing with `lookup`.
    fn find_index(&self, key: &String) -> (r: Option<usize>)
        ensures
            match r {
                Some(i) => {
                    &&& i < self.model().len()
                    &&& self.model()[i as int].key == key@
                    &&& lookup(self.model(), key@) == Some(self.model()[i as int])
                },
                None => lookup(self.model(), key@) is None,
            },
    {
        let n = self.entries.len();
        let mut i: usize = 0;
        while i < n
            invariant
                i <= n,
                n == self.entries@.len(),
                forall|j: int| 0 <= j < i ==> (#[trigger] self.model()[j]).key != key@,
            decreases n - i,
        {
            if self.entries[i].key == *key {
                proof {
                    lemma_lookup_at(self.model(), key@, i as int);
                }
                return Some(i);
            }
            i += 1;
        }
        proof {
            lemma_lookup_none(self.model(), key@);
        }
        None
    }

    /// The current cached reference for `key`, if the store knows the key.
    pub fn get_reference(&self, key: &String) -> (r: Option<Reference>)
        ensures
            match lookup(self.model(), key@) {
                Some(e) => {
                    &&& r is Some
                    &&& r.unwrap().path@ == path_join(self.root_spec(), key@)
                    &&& r.unwrap().name@ == e.file_name
                    &&& r.unwrap().changed == false
                },
                None => r is None,
            },
    {
        match self.find_index(key) {
            Some(i) => Some(self.reference_for(i)),
            None => None,
        }
    }

    /// The reference describing the entry at position `i`.
    fn reference_for(&self, i: usize) -> (r: Reference)
        requires
            i < self.model().len(),
        ensures
            r.path@ == path_join(self.root_spec(), self.model()[i as int].key),
            r.name@ == self.model()[i as int].file_name,
            r.changed == false,
    {
        let path = self.path_for(&self.entries[i].key);
        let name = self.entries[i].file_name.clone();
        Reference { path, name, changed: false }
    }

    /// The blob path for `key`: the root, a separator, the key.
    pub fn path_for(&self, key: &String) -> (r: String)
        ensures
            r@ == path_join(self.root_spec(), key@),
    {
        let mut p = self.root.clone();
        p.append("/");
        p.append(key.as_str());
        proof {
            reveal_strlit("/");
            assert(self.root@ + "/"@ + key@ =~= path_join(self.root_spec(), key@));
        }
        p
    }

    /// Removes every entry whose key was not touched this run and returns
    /// the references describing what was removed, in index order; the
    /// entries that remain are exactly the touched ones, order kept. The
    /// caller deletes each returned reference's blob at its path.
    pub fn drop_stale(&mut self) -> (r: Vec<Reference>)
        ensures
            old(self).wf() ==> final(self).wf(),
            final(self).root_spec() == old(self).root_spec(),
            final(self).touched() == old(self).touched(),
            final(self).model() == old(self).model().filter(
                |e: EntryView| old(self).touched().contains(e.key),
            ),
            ({
                let stale = old(self).model().filter(
                    |e: EntryView| !old(self).touched().contains(e.key),
                );
                &&& r@.len() == stale.len()
                &&& forall|i: int|
                    0 <= i < stale.len() ==> (#[trigger] r@[i]).path@ == path_join(
                        old(self).root_spec(),
                        stale[i].key,
                    ) && r@[i].name@ == stale[i].file_name && r@[i].changed == false
            }),
    {
        let ghost touched_pred = |e: EntryView| old(self).touched().contains(e.key);
        let ghost stale_pred = |e: EntryView| !old(self).touched().contains(e.key);
        let n = self.entries.len();
        let mut kept: Vec<IndexEntry> = Vec::new();
        let mut refs: Vec<Reference> = Vec::new();
        proof {
            reveal(Seq::filter);
            assert(old(self).model().take(0) =~= Seq::<EntryView>::empty());
            assert(views_of(kept@) =~= Seq::<EntryView>::empty());
        }
        let mut i: usize = 0;
        while i < n
            invariant
                i <= n,
                n == self.entries@.len(),
                *self == *old(self),
                views_of(kept@) == old(self).model().take(i as int).filter(touched_pred),
                touched_pred == (|e: EntryView| old(self).touched().contains(e.key)),
                stale_pred == (|e: EntryView| !old(self).touched().contains(e.key)),
                ({
                    let stale = old(self).model().take(i as int).filter(stale_pred);
                    &&& refs@.len() == stale.len()
                    &&& forall|j: int|
                        0 <= j < stale.len() ==> (#[trigger] refs@[j]).path@ == path_join(
                            old(self).root_spec(),
                            stale[j].key,
                        ) && refs@[j].name@ == stale[j].file_name && refs@[j].changed == false
                }),
            decreases n - i,
        {
            proof {
                reveal(Seq::filter);
                assert(old(self).model().take(i + 1).drop_last() =~= old(self).model().take(
                    i as int,
                ));
                assert(old(self).model().take(i + 1).last() == old(self).model()[i as int]);
            }
            let touched_now = self.is_touched(&self.entries[i].key);
            if touched_now {
                let ghost pre = views_of(kept@);
                let copy = self.entries[i].dup();
                kept.push(copy);
                proof {
                    assert(views_of(kept@) =~= pre.push(old(self).model()[i as int]));
                }
            } else {
                let reference = self.reference_for(i);
                refs.push(reference);
            }
            i += 1;
        }
        proof {
            assert(old(self).model().take(n as int) =~= old(self).model());
            if old(self).wf() {
                lemma_filter_unique(old(self).model(), touched_pred);
            }
        }
        self.entries = kept;
        refs
    }

    /// Whether `key` was looked up during this run.
    fn is_touched(&self, key: &String) -> (r: bool)
        ensures
            r == self.touched().contains(key@),
    {
        let n = self.used_entries.len();
        let mut i: usize = 0;
        while i < n
            invariant
                i <= n,
                n == self.used_entries@.len(),
                forall|j: int| 0 <= j < i ==> self.touched()[j] != key@,
            decreases n - i,
        {
            if self.used_entries[i] == *key {
                proof {
                    assert(self.touched()[i as int] == key@);
                }
                return true;
            }
            i += 1;
        }
        proof {
            assert(forall|j: int| 0 <= j < self.touched().len() ==> self.touched()[j] != key@);
        }
        false
    }

    /// Serializes the current entries, fully replacing the previous index
    /// contents; the caller persists the result to the index file. The
    /// persistence round trip comes with it: for a well-formed store, the
    /// result parses back to exactly the current entries, and a store
    /// reopened from them carries the same entries again.
    pub fn close(self) -> (r: String)
        ensures
            r@ == enc_index(self.model()),
            self.wf() ==> dec_index(r@) == Some(self.model()) && store_all(
                Seq::<EntryView>::empty(),
                self.model(),
            ) == self.model(),
    {
        let encoded = encode_index(&self.entries);
        proof {
            if self.wf() {
                lemma_index_round_trip(self.model());
                lemma_reopen_preserves_entries(self.model());
            }
        }
        encoded
    }
}

/// Inserts `e`, overwriting the first entry with the same key in place or
/// appending when the key is new.
fn store_exec(entries: &mut Vec<IndexEntry>, e: IndexEntry)
    ensures
        views_of(final(entries)@) == store(views_of(old(entries)@), e@),
{
    let n = entries.len();
    let mut i: usize = 0;
    while i < n
        invariant
            i <= n,
            n == entries@.len(),
            *entries == *old(entries),
            forall|j: int| 0 <= j < i ==> (#[trigger] views_of(entries@)[j]).key != e@.key,
        decreases n - i,
    {
        if entries[i].key == e.key {
            proof {
                lemma_store_update(views_of(entries@), e@, i as int);
            }
            let ghost pre = entries@;
            entries.remove(i);
            entries.insert(i, e);
            proof {
                assert(views_of(entries@) =~= views_of(pre).update(i as int, e@));
            }
            return ;
        }
        i += 1;
    }
    proof {
        lemma_store_append(views_of(entries@), e@);
    }
    let ghost pre = entries@;
    entries.push(e);
    proof {
        assert(views_of(entries@) =~= views_of(pre).push(e@));
    }
}

impl Entry {
    pub closed spec fn key_spec(&self) -> Seq<char> {
        self.key@
    }

    pub closed spec fn token_spec(&self) -> TokenView {
        self.current_token@
    }

    /// Compares `token` against what the store currently knows for this
    /// key: a match serves the cached blob with no further work, a
    /// mismatch yields the one-shot capability to overwrite the entry.
    pub fn try_update(self, loader: &Loader, token: Token) -> (r: UpdateResult)
        ensures
            match r {
                UpdateResult::Match(reference) => {
                    &&& token_eq(stored_token(loader.model(), self.key_spec()), token@)
                    &&& lookup(loader.model(), self.key_spec()) is Some
                    &&& reference.path@ == path_join(loader.root_spec(), self.key_spec())
                    &&& reference.name@ == lookup(
                        loader.model(),
                        self.key_spec(),
                    ).unwrap().file_name
                    &&& reference.changed == false
                },
                UpdateResult::Mismatch(updater) => {
                    &&& !token_eq(stored_token(loader.model(), self.key_spec()), token@)
                    &&& updater.key_spec() == self.key_spec()
                    &&& updater.token_spec() == token@
                },
            },
    {
        match loader.find_index(&self.key) {
            Some(i) => {
                if loader.entries[i].token == token {
                    UpdateResult::Match(loader.reference_for(i))
                } else {
                    UpdateResult::Mismatch(EntryUpdater { key: self.key, token })
                }
            },
            None => UpdateResult::Mismatch(EntryUpdater { key: self.key, token }),
        }
    }

    /// The current cached reference for this key, with no token
    /// comparison; used when a provider reports no version available.
    pub fn get_existing(self, loader: &Loader) -> (r: Option<Reference>)
        ensures
            match lookup(loader.model(), self.key_spec()) {
                Some(e) => {
                    &&& r is Some
                    &&& r.unwrap().path@ == path_join(loader.root_spec(), self.key_spec())
                    &&& r.unwrap().name@ == e.file_name
                    &&& r.unwrap().changed == false
                },
                None => r is None,
            },
    {
        loader.get_reference(&self.key)
    }

    /// The token this key was bound to when the entry was taken.
    pub fn token(&self) -> (r: &Token)
        ensures
            r@ == self.token_spec(),
    {
        &self.current_token
    }
}

impl EntryUpdater {
    pub closed spec fn key_spec(&self) -> Seq<char> {
        self.key@
    }

    pub closed spec fn token_spec(&self) -> TokenView {
        self.token@
    }

    /// Commits the new artifact: replaces (or creates) the key's entry
    /// with the mismatching token and the transformed file's name, and
    /// hands back the bytes for the caller to write at the reference's
    /// path before relying on it.
    pub fn update(self, loader: &mut Loader, file: File) -> (r: (Reference, Vec<u8>))
        requires
            old(loader).wf(),
        ensures
            final(loader).wf(),
            final(loader).model() == store(
                old(loader).model(),
                EntryView { key: self.key_spec(), token: self.token_spec(), file_name: file.name@ },
            ),
            final(loader).touched() == old(loader).touched(),
            final(loader).root_spec() == old(loader).root_spec(),
            r.0.path@ == path_join(old(loader).root_spec(), self.key_spec()),
            r.0.name@ == file.name@,
            r.0.changed == true,
            r.1@ == file.bytes@,
    {
        let path = loader.path_for(&self.key);
        let name = file.name;
        let entry = IndexEntry { key: self.key, token: self.token, file_name: name.clone() };
        proof {
            lemma_store_unique(loader.model(), entry@);
        }
        store_exec(&mut loader.entries, entry);
        (Reference { path, name, changed: true }, file.bytes)
    }
}

impl Reference {
    /// Whether this run replaced the blob this reference points at.
    pub fn changed(&self) -> (r: bool)
        ensures
            r == self.changed,
    {
        self.changed
    }

    /// Where this reference's file belongs inside a destination directory.
    pub fn resolve_target_path(&self, root: &String) -> (r: String)
        ensures
            r@ == path_join(root@, self.name@),
    {
        let mut p = root.clone();
        p.append("/");
        p.append(self.name.as_str());
        proof {
            reveal_strlit("/");
            assert(root@ + "/"@ + self.name@ =~= path_join(root@, self.name@));
        }
        p
    }
}

} // verus!
