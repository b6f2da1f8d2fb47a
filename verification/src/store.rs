//! The binary store adapter: a flat, byte-keyed key-value store.
//!
//! This is the substrate everything else persists into.  It offers
//! `get` and `set` by byte-string key, last write wins, and is modelled
//! by a `Map<Seq<u8>, Seq<u8>>`.

use vstd::prelude::*;

verus! {

/// A flat key-value store over byte strings.
pub struct KvStore {
    entries: Vec<(Vec<u8>, Vec<u8>)>,
}

spec fn no_dup_keys(entries: Seq<(Vec<u8>, Vec<u8>)>) -> bool {
    forall|i: int, j: int| 0 <= i < j < entries.len() ==> entries[i].0@ != entries[j].0@
}

spec fn key_index_of(entries: Seq<(Vec<u8>, Vec<u8>)>, k: Seq<u8>) -> int {
    choose|i: int| 0 <= i < entries.len() && entries[i].0@ == k
}

spec fn entries_as_map(entries: Seq<(Vec<u8>, Vec<u8>)>) -> Map<Seq<u8>, Seq<u8>> {
    Map::new(
        |k: Seq<u8>| exists|i: int| 0 <= i < entries.len() && entries[i].0@ == k,
        |k: Seq<u8>| entries[key_index_of(entries, k)].1@,
    )
}

impl KvStore {
    /// No key occurs twice in the backing vector.
    #[verifier::type_invariant]
    spec fn wf(self) -> bool {
        no_dup_keys(self.entries@)
    }

    /// Creates an empty store.
    pub fn new() -> (r: KvStore)
        ensures
            r@ == Map::<Seq<u8>, Seq<u8>>::empty(),
    {
        let r = KvStore { entries: Vec::new() };
        proof {
            assert(r@ =~= Map::<Seq<u8>, Seq<u8>>::empty());
        }
        r
    }

    /// Looks a key up, returning the stored value if there is one.
    pub fn get(&self, key: &[u8]) -> (r: Option<&Vec<u8>>)
        ensures
            match r {
                Some(v) => self@.dom().contains(key@) && v@ == self@[key@],
                None => !self@.dom().contains(key@),
            },
    {
        proof {
            use_type_invariant(&*self);
        }
        match find_key(&self.entries, key) {
            Some(i) => {
                proof {
                    assert(self@.dom().contains(key@));
                    let w = key_index_of(self.entries@, key@);
                    assert(0 <= w < self.entries@.len() && self.entries@[w].0@ == key@);
                    if w != i as int {
                        assert(self.entries@[w].0@ == self.entries@[i as int].0@);
                    }
                }
                Some(&self.entries[i].1)
            },
            None => {
                proof {
                    if self@.dom().contains(key@) {
                        let w = choose|i: int|
                            0 <= i < self.entries@.len() && self.entries@[i].0@ == key@;
                        assert(self.entries@[w].0@ == key@);
                    }
                }
                None
            },
        }
    }

    /// Stores `value` under `key`, overwriting any previous value.
    pub fn set(&mut self, key: &[u8], value: Vec<u8>)
        ensures
            final(self)@ == old(self)@.insert(key@, value@),
    {
        proof {
            use_type_invariant(&*self);
        }
        let ghost pre = self.entries@;
        let mut entries: Vec<(Vec<u8>, Vec<u8>)> = Vec::new();
        std::mem::swap(&mut entries, &mut self.entries);
        let owned_key = vstd::slice::slice_to_vec(key);
        match find_key(&entries, key) {
            Some(i) => {
                entries.set(i, (owned_key, value));
                proof {
                    assert(no_dup_keys(entries@));
                    assert forall|k: Seq<u8>| #[trigger] entries_as_map(entries@).dom().contains(k)
                        || entries_as_map(pre).insert(key@, value@).dom().contains(k) implies
                        entries_as_map(entries@).dom().contains(k)
                            && entries_as_map(pre).insert(key@, value@).dom().contains(k)
                            && entries_as_map(entries@)[k]
                                == entries_as_map(pre).insert(key@, value@)[k] by {
                        lemma_replace_view(pre, entries@, key@, value@, i as int, k);
                    }
                    assert(entries_as_map(entries@) =~= entries_as_map(pre).insert(key@, value@));
                }
            },
            None => {
                entries.push((owned_key, value));
                proof {
                    assert(no_dup_keys(entries@));
                    assert forall|k: Seq<u8>| #[trigger] entries_as_map(entries@).dom().contains(k)
                        || entries_as_map(pre).insert(key@, value@).dom().contains(k) implies
                        entries_as_map(entries@).dom().contains(k)
                            && entries_as_map(pre).insert(key@, value@).dom().contains(k)
                            && entries_as_map(entries@)[k]
                                == entries_as_map(pre).insert(key@, value@)[k] by {
                        lemma_append_entry_view(pre, entries@, key@, value@, k);
                    }
                    assert(entries_as_map(entries@) =~= entries_as_map(pre).insert(key@, value@));
                }
            },
        }
        self.entries = entries;
    }
}

impl View for KvStore {
    type V = Map<Seq<u8>, Seq<u8>>;

    closed spec fn view(&self) -> Map<Seq<u8>, Seq<u8>> {
        entries_as_map(self.entries@)
    }
}

/// Finds the position of `key` in the backing vector, if present.
fn find_key(entries: &Vec<(Vec<u8>, Vec<u8>)>, key: &[u8]) -> (r: Option<usize>)
    ensures
        match r {
            Some(i) => i < entries@.len() && entries@[i as int].0@ == key@,
            None => forall|j: int| 0 <= j < entries@.len() ==> entries@[j].0@ != key@,
        },
{
    let n = entries.len();
    for i in 0..n
        invariant
            n == entries@.len(),
            forall|j: int| 0 <= j < i ==> entries@[j].0@ != key@,
    {
        if slice_eq(entries[i].0.as_slice(), key) {
            return Some(i);
        }
    }
    None
}

proof fn lemma_replace_view(
    pre: Seq<(Vec<u8>, Vec<u8>)>,
    post: Seq<(Vec<u8>, Vec<u8>)>,
    key: Seq<u8>,
    value: Seq<u8>,
    i: int,
    k: Seq<u8>,
)
    requires
        no_dup_keys(pre),
        no_dup_keys(post),
        0 <= i < pre.len(),
        pre[i].0@ == key,
        post.len() == pre.len(),
        post[i].0@ == key,
        post[i].1@ == value,
        forall|j: int| 0 <= j < pre.len() && j != i ==> post[j] == pre[j],
    ensures
        entries_as_map(post).dom().contains(k) <==> entries_as_map(pre).insert(
            key,
            value,
        ).dom().contains(k),
        entries_as_map(post).dom().contains(k) ==> entries_as_map(post)[k] == entries_as_map(
            pre,
        ).insert(key, value)[k],
{
    if entries_as_map(post).dom().contains(k) {
        let w = choose|j: int| 0 <= j < post.len() && post[j].0@ == k;
        if w == i {
            assert(entries_as_map(pre).insert(key, value).dom().contains(k));
        } else {
            assert(pre[w].0@ == k);
            assert(entries_as_map(pre).dom().contains(k));
        }
    }
    if entries_as_map(pre).insert(key, value).dom().contains(k) {
        if k == key {
            assert(post[i].0@ == k);
            assert(entries_as_map(post).dom().contains(k));
        } else {
            let w = choose|j: int| 0 <= j < pre.len() && pre[j].0@ == k;
            assert(w != i);
            assert(post[w].0@ == k);
            assert(entries_as_map(post).dom().contains(k));
        }
    }
    if entries_as_map(post).dom().contains(k) {
        let wpost = key_index_of(post, k);
        assert(0 <= wpost < post.len() && post[wpost].0@ == k);
        if k == key {
            assert(wpost == i) by {
                if wpost != i {
                    assert(post[wpost].0@ == post[i].0@);
                }
            }
            assert(entries_as_map(post)[k] == value);
            assert(entries_as_map(pre).insert(key, value)[k] == value);
        } else {
            assert(wpost != i);
            let wpre = key_index_of(pre, k);
            assert(pre[wpost].0@ == k);
            assert(0 <= wpre < pre.len() && pre[wpre].0@ == k);
            assert(wpre == wpost) by {
                if wpre != wpost {
                    assert(pre[wpre].0@ == pre[wpost].0@);
                }
            }
            assert(entries_as_map(post)[k] == post[wpost].1@);
            assert(entries_as_map(pre).insert(key, value)[k] == pre[wpre].1@);
        }
    }
}

proof fn lemma_append_entry_view(
    pre: Seq<(Vec<u8>, Vec<u8>)>,
    post: Seq<(Vec<u8>, Vec<u8>)>,
    key: Seq<u8>,
    value: Seq<u8>,
    k: Seq<u8>,
)
    requires
        no_dup_keys(pre),
        no_dup_keys(post),
        forall|j: int| 0 <= j < pre.len() ==> pre[j].0@ != key,
        post.len() == pre.len() + 1,
        post[pre.len() as int].0@ == key,
        post[pre.len() as int].1@ == value,
        forall|j: int| 0 <= j < pre.len() ==> post[j] == pre[j],
    ensures
        entries_as_map(post).dom().contains(k) <==> entries_as_map(pre).insert(
            key,
            value,
        ).dom().contains(k),
        entries_as_map(post).dom().contains(k) ==> entries_as_map(post)[k] == entries_as_map(
            pre,
        ).insert(key, value)[k],
{
    let n = pre.len() as int;
    if entries_as_map(post).dom().contains(k) {
        let w = choose|j: int| 0 <= j < post.len() && post[j].0@ == k;
        if w == n {
            assert(k == key);
            assert(entries_as_map(pre).insert(key, value).dom().contains(k));
        } else {
            assert(pre[w].0@ == k);
            assert(entries_as_map(pre).dom().contains(k));
        }
    }
    if entries_as_map(pre).insert(key, value).dom().contains(k) {
        if k == key {
            assert(post[n].0@ == k);
            assert(entries_as_map(post).dom().contains(k));
        } else {
            let w = choose|j: int| 0 <= j < pre.len() && pre[j].0@ == k;
            assert(post[w].0@ == k);
            assert(entries_as_map(post).dom().contains(k));
        }
    }
    if entries_as_map(post).dom().contains(k) {
        let wpost = key_index_of(post, k);
        assert(0 <= wpost < post.len() && post[wpost].0@ == k);
        if k == key {
            assert(wpost == n) by {
                if wpost != n {
                    assert(pre[wpost].0@ == key);
                }
            }
            assert(entries_as_map(post)[k] == value);
        } else {
            assert(wpost != n);
            let wpre = key_index_of(pre, k);
            assert(pre[wpost].0@ == k);
            assert(0 <= wpre < pre.len() && pre[wpre].0@ == k);
            assert(wpre == wpost) by {
                if wpre != wpost {
                    assert(pre[wpre].0@ == pre[wpost].0@);
                }
            }
            assert(entries_as_map(post)[k] == post[wpost].1@);
            assert(entries_as_map(pre).insert(key, value)[k] == pre[wpre].1@);
        }
    }
}

/// Appends the bytes of `src` to `dst`.
pub fn append_bytes(dst: &mut Vec<u8>, src: &[u8])
    ensures
        final(dst)@ == old(dst)@ + src@,
{
    let n = src.len();
    for i in 0..n
        invariant
            n == src@.len(),
            dst@ == old(dst)@ + src@.subrange(0, i as int),
    {
        dst.push(src[i]);
        proof {
            assert(dst@ =~= old(dst)@ + src@.subrange(0, i + 1));
        }
    }
    proof {
        assert(old(dst)@ + src@.subrange(0, n as int) =~= old(dst)@ + src@);
    }
}

/// Compares two byte slices for equality.
pub fn slice_eq(a: &[u8], b: &[u8]) -> (r: bool)
    ensures
        r == (a@ == b@),
{
    if a.len() != b.len() {
        proof {
            assert(a@ != b@) by {
                if a@ == b@ {
                    assert(a@.len() == b@.len());
                }
            }
        }
        return false;
    }
    let n = a.len();
    for i in 0..n
        invariant
            n == a@.len() == b@.len(),
            forall|j: int| 0 <= j < i ==> a@[j] == b@[j],
    {
        if a[i] != b[i] {
            return false;
        }
    }
    proof {
        assert(a@ =~= b@);
    }
    true
}

} // verus!
