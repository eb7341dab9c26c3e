use crate::source::File;
use vstd::prelude::*;

verus! {

// ---------------------------------------------------------------------------
// The mathematical model of a destination directory: file names to
// contents. Files unrelated to the cache simply stay in the map.
// ---------------------------------------------------------------------------
/// Removes every name in `names` from the directory, in order.
pub open spec fn remove_all(dir: Map<Seq<char>, Seq<u8>>, names: Seq<Seq<char>>) -> Map<
    Seq<char>,
    Seq<u8>,
>
    decreases names.len(),
{
    if names.len() == 0 {
        dir
    } else {
        remove_all(dir.remove(names[0]), names.drop_first())
    }
}

/// Copies every file into the directory, in order, overwriting by name.
pub open spec fn insert_all(
    dir: Map<Seq<char>, Seq<u8>>,
    files: Seq<(Seq<char>, Seq<u8>)>,
) -> Map<Seq<char>, Seq<u8>>
    decreases files.len(),
{
    if files.len() == 0 {
        dir
    } else {
        insert_all(dir.insert(files[0].0, files[0].1), files.drop_first())
    }
}

/// One destination sync: remove what this run evicted, then copy in what
/// this run produced.
pub open spec fn apply_sync(
    dir: Map<Seq<char>, Seq<u8>>,
    stale: Seq<Seq<char>>,
    fresh: Seq<(Seq<char>, Seq<u8>)>,
) -> Map<Seq<char>, Seq<u8>> {
    insert_all(remove_all(dir, stale), fresh)
}

/// The content the fresh set finally gives to name `k`: the last file
/// carrying that name, since later copies overwrite earlier ones.
pub open spec fn files_lookup(files: Seq<(Seq<char>, Seq<u8>)>, k: Seq<char>) -> Option<Seq<u8>>
    decreases files.len(),
{
    if files.len() == 0 {
        None
    } else {
        match files_lookup(files.drop_first(), k) {
            Some(v) => Some(v),
            None => if files[0].0 == k {
                Some(files[0].1)
            } else {
                None
            },
        }
    }
}

proof fn lemma_insert_all_at(dir: Map<Seq<char>, Seq<u8>>, files: Seq<(Seq<char>, Seq<u8>)>, k: Seq<char>)
    ensures
        match files_lookup(files, k) {
            Some(v) => insert_all(dir, files).contains_key(k) && insert_all(dir, files)[k] == v,
            None => (insert_all(dir, files).contains_key(k) == dir.contains_key(k)) && (
            dir.contains_key(k) ==> insert_all(dir, files)[k] == dir[k]),
        },
    decreases files.len(),
{
    if files.len() > 0 {
        lemma_insert_all_at(dir.insert(files[0].0, files[0].1), files.drop_first(), k);
    }
}

proof fn lemma_remove_all_at(dir: Map<Seq<char>, Seq<u8>>, names: Seq<Seq<char>>, k: Seq<char>)
    ensures
        names.contains(k) ==> !remove_all(dir, names).contains_key(k),
        !names.contains(k) ==> (remove_all(dir, names).contains_key(k) == dir.contains_key(k)) && (
        dir.contains_key(k) ==> remove_all(dir, names)[k] == dir[k]),
    decreases names.len(),
{
    if names.len() > 0 {
        lemma_remove_all_at(dir.remove(names[0]), names.drop_first(), k);
        if names.contains(k) && names[0] != k {
            let w = choose|w: int| 0 <= w < names.len() && names[w] == k;
            assert(names.drop_first()[w - 1] == k);
            assert(names.drop_first().contains(k));
        }
        if names.drop_first().contains(k) {
            let w = choose|w: int| 0 <= w < names.drop_first().len() && names.drop_first()[w] == k;
            assert(names[w + 1] == k);
        }
    }
}

/// What one sync gives to each name: the fresh set's content if the name
/// is produced this run; otherwise absent if evicted this run; otherwise
/// whatever the directory already held.
pub proof fn lemma_apply_sync_at(
    dir: Map<Seq<char>, Seq<u8>>,
    stale: Seq<Seq<char>>,
    fresh: Seq<(Seq<char>, Seq<u8>)>,
    k: Seq<char>,
)
    ensures
        match files_lookup(fresh, k) {
            Some(v) => apply_sync(dir, stale, fresh).contains_key(k) && apply_sync(
                dir,
                stale,
                fresh,
            )[k] == v,
            None => if stale.contains(k) {
                !apply_sync(dir, stale, fresh).contains_key(k)
            } else {
                (apply_sync(dir, stale, fresh).contains_key(k) == dir.contains_key(k)) && (
                dir.contains_key(k) ==> apply_sync(dir, stale, fresh)[k] == dir[k])
            },
        },
{
    lemma_remove_all_at(dir, stale, k);
    lemma_insert_all_at(remove_all(dir, stale), fresh, k);
}

/// Sync idempotence: applying one destination sync twice with the same
/// fresh and stale sets leaves the directory exactly as applying it once.
pub proof fn lemma_sync_idempotent(
    dir: Map<Seq<char>, Seq<u8>>,
    stale: Seq<Seq<char>>,
    fresh: Seq<(Seq<char>, Seq<u8>)>,
)
    ensures
        apply_sync(apply_sync(dir, stale, fresh), stale, fresh) == apply_sync(dir, stale, fresh),
{
    let once = apply_sync(dir, stale, fresh);
    let twice = apply_sync(once, stale, fresh);
    assert forall|k: Seq<char>|
        (#[trigger] twice.contains_key(k) == once.contains_key(k)) && (once.contains_key(k)
            ==> twice[k] == once[k]) by {
        lemma_apply_sync_at(dir, stale, fresh, k);
        lemma_apply_sync_at(once, stale, fresh, k);
    }
    assert(twice =~= once);
}

// ---------------------------------------------------------------------------
// An executable reconciler over an in-memory directory model. The caller
// that owns a real directory performs the same removals and copies with
// its file system and can hold its result against this model.
// ---------------------------------------------------------------------------
/// An in-memory directory: an append-ordered list of (name, content)
/// pairs, the later entry winning for a repeated name.
pub struct DirModel {
    files: Vec<(String, Vec<u8>)>,
}

/// The pair list as mathematical values.
pub open spec fn dpairs(s: Seq<(String, Vec<u8>)>) -> Seq<(Seq<char>, Seq<u8>)> {
    s.map_values(|p: (String, Vec<u8>)| (p.0@, p.1@))
}

/// The map a pair list denotes, later pairs overwriting earlier ones.
pub open spec fn pairs_model(s: Seq<(Seq<char>, Seq<u8>)>) -> Map<Seq<char>, Seq<u8>>
    decreases s.len(),
{
    if s.len() == 0 {
        Map::empty()
    } else {
        pairs_model(s.drop_last()).insert(s.last().0, s.last().1)
    }
}

/// An explicit byte-for-byte copy whose view is known to match.
pub fn clone_bytes(v: &Vec<u8>) -> (r: Vec<u8>)
    ensures
        r@ == v@,
{
    let mut out: Vec<u8> = Vec::new();
    let n = v.len();
    let mut i: usize = 0;
    while i < n
        invariant
            i <= n,
            n == v@.len(),
            out@ == v@.take(i as int),
        decreases n - i,
    {
        out.push(v[i]);
        proof {
            assert(v@.take(i as int).push(v@[i as int]) =~= v@.take(i + 1));
        }
        i += 1;
    }
    proof {
        assert(v@.take(n as int) =~= v@);
    }
    out
}

impl DirModel {
    pub closed spec fn model(&self) -> Map<Seq<char>, Seq<u8>> {
        pairs_model(dpairs(self.files@))
    }

    pub fn new() -> (r: DirModel)
        ensures
            r.model() == Map::<Seq<char>, Seq<u8>>::empty(),
    {
        DirModel { files: Vec::new() }
    }

    /// Writes (or overwrites) one file.
    pub fn put(&mut self, name: String, bytes: Vec<u8>)
        ensures
            final(self).model() == old(self).model().insert(name@, bytes@),
    {
        let ghost pre = self.files@;
        self.files.push((name, bytes));
        proof {
            assert(dpairs(self.files@).drop_last() =~= dpairs(pre));
            assert(dpairs(self.files@).last() == (name@, bytes@));
        }
    }

    /// Removes one file by name; absence is not an error.
    pub fn remove(&mut self, name: &String)
        ensures
            final(self).model() == old(self).model().remove(name@),
    {
        let n = self.files.len();
        let mut kept: Vec<(String, Vec<u8>)> = Vec::new();
        let ghost keep_pred = |q: (Seq<char>, Seq<u8>)| q.0 != name@;
        proof {
            reveal(Seq::filter);
            assert(dpairs(self.files@).take(0) =~= Seq::<(Seq<char>, Seq<u8>)>::empty());
            assert(dpairs(kept@) =~= dpairs(self.files@).take(0).filter(keep_pred));
        }
        let mut i: usize = 0;
        while i < n
            invariant
                i <= n,
                n == self.files@.len(),
                *self == *old(self),
                keep_pred == (|q: (Seq<char>, Seq<u8>)| q.0 != name@),
                dpairs(kept@) == dpairs(self.files@).take(i as int).filter(keep_pred),
            decreases n - i,
        {
            proof {
                reveal(Seq::filter);
                assert(dpairs(self.files@).take(i + 1).drop_last() =~= dpairs(
                    self.files@,
                ).take(i as int));
                assert(dpairs(self.files@).take(i + 1).last() == dpairs(self.files@)[i as int]);
            }
            if !(self.files[i].0 == *name) {
                let pair = (self.files[i].0.clone(), clone_bytes(&self.files[i].1));
                let ghost prev = kept@;
                kept.push(pair);
                proof {
                    assert(dpairs(kept@) =~= dpairs(prev).push(dpairs(self.files@)[i as int]));
                }
            }
            i += 1;
        }
        proof {
            assert(dpairs(self.files@).take(n as int) =~= dpairs(self.files@));
        }
        self.files = kept;
        proof {
            lemma_pairs_model_filter(dpairs(old(self).files@), name@, keep_pred);
        }
    }

    /// Reads one file's content, if present.
    pub fn get(&self, name: &String) -> (r: Option<&Vec<u8>>)
        ensures
            match r {
                Some(b) => self.model().contains_key(name@) && self.model()[name@] == b@,
                None => !self.model().contains_key(name@),
            },
    {
        let n = self.files.len();
        let mut i: usize = n;
        proof {
            assert(dpairs(self.files@).take(n as int) =~= dpairs(self.files@));
        }
        while i > 0
            invariant
                i <= n,
                n == self.files@.len(),
                self.model().contains_key(name@) == pairs_model(
                    dpairs(self.files@).take(i as int),
                ).contains_key(name@),
                self.model().contains_key(name@) ==> self.model()[name@] == pairs_model(
                    dpairs(self.files@).take(i as int),
                )[name@],
            decreases i,
        {
            proof {
                assert(dpairs(self.files@).take(i as int).drop_last() =~= dpairs(
                    self.files@,
                ).take(i - 1));
                assert(dpairs(self.files@).take(i as int).last() == dpairs(self.files@)[i - 1]);
            }
            i -= 1;
            if self.files[i].0 == *name {
                return Some(&self.files[i].1);
            }
        }
        proof {
            assert(dpairs(self.files@).take(0) =~= Seq::<(Seq<char>, Seq<u8>)>::empty());
        }
        None
    }

    /// One destination sync against this model: remove every stale name,
    /// then copy every fresh file in, exactly as `apply_sync` describes.
    pub fn sync(&mut self, stale: &Vec<String>, fresh: &Vec<File>)
        ensures
            final(self).model() == apply_sync(
                old(self).model(),
                stale@.map_values(|s: String| s@),
                fresh@.map_values(|f: File| (f.name@, f.bytes@)),
            ),
    {
        let ghost stale_names = stale@.map_values(|s: String| s@);
        let ghost fresh_files = fresh@.map_values(|f: File| (f.name@, f.bytes@));
        let n = stale.len();
        let mut i: usize = 0;
        proof {
            assert(stale_names.take(0) =~= Seq::<Seq<char>>::empty());
        }
        while i < n
            invariant
                i <= n,
                n == stale@.len(),
                stale_names == stale@.map_values(|s: String| s@),
                self.model() == remove_all(old(self).model(), stale_names.take(i as int)),
            decreases n - i,
        {
            self.remove(&stale[i]);
            proof {
                lemma_remove_all_snoc(old(self).model(), stale_names.take(i as int), stale_names[i as int]);
                assert(stale_names.take(i as int).push(stale_names[i as int]) =~= stale_names.take(
                    i + 1,
                ));
            }
            i += 1;
        }
        proof {
            assert(stale_names.take(n as int) =~= stale_names);
            assert(fresh_files.take(0) =~= Seq::<(Seq<char>, Seq<u8>)>::empty());
        }
        let ghost mid = self.model();
        let m = fresh.len();
        let mut j: usize = 0;
        while j < m
            invariant
                j <= m,
                m == fresh@.len(),
                fresh_files == fresh@.map_values(|f: File| (f.name@, f.bytes@)),
                self.model() == insert_all(mid, fresh_files.take(j as int)),
            decreases m - j,
        {
            let name = fresh[j].name.clone();
            let bytes = clone_bytes(&fresh[j].bytes);
            proof {
                assert(bytes@ =~= fresh@[j as int].bytes@);
            }
            self.put(name, bytes);
            proof {
                lemma_insert_all_snoc(mid, fresh_files.take(j as int), fresh_files[j as int]);
                assert(fresh_files.take(j as int).push(fresh_files[j as int]) =~= fresh_files.take(
                    j + 1,
                ));
            }
            j += 1;
        }
        proof {
            assert(fresh_files.take(m as int) =~= fresh_files);
        }
    }
}

proof fn lemma_remove_all_snoc(dir: Map<Seq<char>, Seq<u8>>, names: Seq<Seq<char>>, x: Seq<char>)
    ensures
        remove_all(dir, names.push(x)) == remove_all(dir, names).remove(x),
    decreases names.len(),
{
    if names.len() == 0 {
        assert(names.push(x)[0] == x);
        assert(names.push(x).drop_first() =~= names);
        assert(remove_all(dir, names.push(x)) == remove_all(dir.remove(x), names));
        assert(remove_all(dir.remove(x), names) == dir.remove(x));
        assert(remove_all(dir, names) == dir);
    } else {
        assert(names.push(x)[0] == names[0]);
        assert(names.push(x).drop_first() =~= names.drop_first().push(x));
        assert(remove_all(dir, names.push(x)) == remove_all(
            dir.remove(names[0]),
            names.drop_first().push(x),
        ));
        lemma_remove_all_snoc(dir.remove(names[0]), names.drop_first(), x);
        assert(remove_all(dir, names) == remove_all(dir.remove(names[0]), names.drop_first()));
    }
}

proof fn lemma_insert_all_snoc(
    dir: Map<Seq<char>, Seq<u8>>,
    files: Seq<(Seq<char>, Seq<u8>)>,
    x: (Seq<char>, Seq<u8>),
)
    ensures
        insert_all(dir, files.push(x)) == insert_all(dir, files).insert(x.0, x.1),
    decreases files.len(),
{
    if files.len() == 0 {
        assert(files.push(x)[0] == x);
        assert(files.push(x).drop_first() =~= files);
        assert(insert_all(dir, files.push(x)) == insert_all(dir.insert(x.0, x.1), files));
        assert(insert_all(dir.insert(x.0, x.1), files) == dir.insert(x.0, x.1));
        assert(insert_all(dir, files) == dir);
    } else {
        assert(files.push(x)[0] == files[0]);
        assert(files.push(x).drop_first() =~= files.drop_first().push(x));
        assert(insert_all(dir, files.push(x)) == insert_all(
            dir.insert(files[0].0, files[0].1),
            files.drop_first().push(x),
        ));
        lemma_insert_all_snoc(dir.insert(files[0].0, files[0].1), files.drop_first(), x);
        assert(insert_all(dir, files) == insert_all(
            dir.insert(files[0].0, files[0].1),
            files.drop_first(),
        ));
    }
}

/// Dropping every pair named `k` removes exactly `k` from the denoted map.
proof fn lemma_pairs_model_filter(
    s: Seq<(Seq<char>, Seq<u8>)>,
    k: Seq<char>,
    pred: spec_fn((Seq<char>, Seq<u8>)) -> bool,
)
    requires
        forall|q: (Seq<char>, Seq<u8>)| #[trigger] pred(q) == (q.0 != k),
    ensures
        pairs_model(s.filter(pred)) == pairs_model(s).remove(k),
    decreases s.len(),
{
    reveal(Seq::filter);
    if s.len() == 0 {
        assert(pairs_model(s.filter(pred)) =~= pairs_model(s).remove(k));
    } else {
        let t = s.drop_last();
        let x = s.last();
        lemma_pairs_model_filter(t, k, pred);
        if pred(x) {
            assert(s.filter(pred) == t.filter(pred).push(x));
            assert(s.filter(pred).drop_last() =~= t.filter(pred));
            assert(s.filter(pred).last() == x);
            assert(pairs_model(s.filter(pred)) == pairs_model(t.filter(pred)).insert(x.0, x.1));
            assert(pairs_model(t).remove(k).insert(x.0, x.1) =~= pairs_model(t).insert(
                x.0,
                x.1,
            ).remove(k));
        } else {
            assert(pairs_model(t).insert(x.0, x.1).remove(k) =~= pairs_model(t).remove(k));
        }
    }
}

} // verus!
