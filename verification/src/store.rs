//! The blob directory: a mapping from path to blob, kept in strictly
//! increasing lexicographic path order so listings come out sorted.

use vstd::prelude::*;

use crate::blob::Blob;
use crate::order::{lemma_lex_ne, lemma_lex_trans, lex_cmp, lex_less, PathOrder};

verus! {

/// Whether some entry of `s` is keyed by path `k`.
spec fn has_path(s: Seq<(Vec<u8>, Blob)>, k: Seq<u8>) -> bool {
    exists|i: int| 0 <= i < s.len() && s[i].0@ == k
}

/// The bytes stored under path `k`, where `s` holds `k` at most once.
spec fn path_bytes(s: Seq<(Vec<u8>, Blob)>, k: Seq<u8>) -> Seq<u8> {
    s[choose|i: int| 0 <= i < s.len() && s[i].0@ == k].1.bytes()
}

/// The entries seen as a mapping from path to the stored bytes.
spec fn seq_as_map(s: Seq<(Vec<u8>, Blob)>) -> Map<Seq<u8>, Seq<u8>> {
    Map::new(|k: Seq<u8>| has_path(s, k), |k: Seq<u8>| path_bytes(s, k))
}

/// Entries stand in strictly increasing path order.
spec fn seq_sorted(s: Seq<(Vec<u8>, Blob)>) -> bool {
    forall|i: int, j: int| 0 <= i < j < s.len() ==> lex_less(s[i].0@, s[j].0@)
}

proof fn lemma_distinct(s: Seq<(Vec<u8>, Blob)>)
    requires
        seq_sorted(s),
    ensures
        forall|i: int, j: int|
            0 <= i < s.len() && 0 <= j < s.len() && i != j ==> s[i].0@ != s[j].0@,
{
    assert forall|i: int, j: int|
        0 <= i < s.len() && 0 <= j < s.len() && i != j implies s[i].0@ != s[j].0@ by {
        if i < j {
            lemma_lex_ne(s[i].0@, s[j].0@);
        } else {
            lemma_lex_ne(s[j].0@, s[i].0@);
        }
    }
}

/// The entry at index `i` is what the mapping holds for its path.
proof fn lemma_at(s: Seq<(Vec<u8>, Blob)>, i: int)
    requires
        seq_sorted(s),
        0 <= i < s.len(),
    ensures
        seq_as_map(s).contains_key(s[i].0@),
        seq_as_map(s)[s[i].0@] == s[i].1.bytes(),
{
    let k = s[i].0@;
    assert(has_path(s, k));
    let j = choose|j: int| 0 <= j < s.len() && s[j].0@ == k;
    lemma_distinct(s);
    assert(j == i);
}

/// The path-to-blob directory. Each path is associated with at most one
/// blob; inserting and removing swap reference-counted handles in and out of
/// the mapping and never touch the blobs' bytes, so a reader that already
/// holds a blob keeps serving its original content.
pub struct BlobStore {
    entries: Vec<(Vec<u8>, Blob)>,
}

impl BlobStore {
    /// The directory seen as a mapping from path to the stored bytes.
    pub closed spec fn as_map(&self) -> Map<Seq<u8>, Seq<u8>> {
        seq_as_map(self.entries@)
    }

    /// The paths in listing order.
    pub closed spec fn paths_in_order(&self) -> Seq<Seq<u8>> {
        self.entries@.map(|i: int, e: (Vec<u8>, Blob)| e.0@)
    }

    /// Entries stand in strictly increasing path order, so each path occurs
    /// at most once.
    pub closed spec fn wf(&self) -> bool {
        seq_sorted(self.entries@)
    }

    /// An empty directory.
    pub fn new() -> (r: BlobStore)
        ensures
            r.wf(),
            r.as_map() == Map::<Seq<u8>, Seq<u8>>::empty(),
            r.paths_in_order() == Seq::<Seq<u8>>::empty(),
    {
        let r = BlobStore { entries: Vec::new() };
        proof {
            assert(r.as_map() =~= Map::<Seq<u8>, Seq<u8>>::empty());
            assert(r.paths_in_order() =~= Seq::<Seq<u8>>::empty());
        }
        r
    }

    /// The index the path stands at, or would be inserted at: everything
    /// before it comes strictly earlier in the order.
    fn position_for(&self, path: &Vec<u8>) -> (i: usize)
        requires
            self.wf(),
        ensures
            i <= self.entries@.len(),
            forall|j: int| 0 <= j < i ==> lex_less(self.entries@[j].0@, path@),
            i < self.entries@.len() ==> !lex_less(self.entries@[i as int].0@, path@),
    {
        let n = self.entries.len();
        let mut i: usize = 0;
        while i < n
            invariant
                i <= n,
                n == self.entries@.len(),
                forall|j: int| 0 <= j < i ==> lex_less(self.entries@[j].0@, path@),
            decreases n - i,
        {
            match lex_cmp(&self.entries[i].0, path) {
                PathOrder::Less => {},
                _ => {
                    return i;
                },
            }
            i = i + 1;
        }
        i
    }

    /// Looks a path up and hands back a cloned reference to its blob: a
    /// reference-count bump, no copy of the bytes. `None` exactly when the
    /// path is absent.
    pub fn get(&self, path: &Vec<u8>) -> (r: Option<Blob>)
        requires
            self.wf(),
        ensures
            r is Some <==> self.as_map().contains_key(path@),
            r matches Some(b) ==> b.bytes() == self.as_map()[path@],
    {
        let n = self.entries.len();
        let mut i: usize = 0;
        while i < n
            invariant
                self.wf(),
                i <= n,
                n == self.entries@.len(),
                forall|j: int| 0 <= j < i ==> self.entries@[j].0@ != path@,
            decreases n - i,
        {
            match lex_cmp(&self.entries[i].0, path) {
                PathOrder::Equal => {
                    let b = self.entries[i].1.clone();
                    proof {
                        lemma_at(self.entries@, i as int);
                    }
                    return Some(b);
                },
                _ => {},
            }
            i = i + 1;
        }
        proof {
            assert(!has_path(self.entries@, path@));
        }
        None
    }

    /// Associates the path with the blob, replacing atomically whatever the
    /// path held before. The directory only drops its own reference to the
    /// old blob; readers that hold one keep it, and its bytes, alive.
    pub fn insert(&mut self, path: Vec<u8>, blob: Blob)
        requires
            old(self).wf(),
        ensures
            final(self).wf(),
            final(self).as_map() == old(self).as_map().insert(path@, blob.bytes()),
    {
        let ghost e = (path, blob);
        let ghost p = path@;
        let ghost bts = blob.bytes();
        let ghost so = self.entries@;
        let i = self.position_for(&path);
        let n = self.entries.len();
        let mut replace = false;
        if i < n {
            match lex_cmp(&self.entries[i].0, &path) {
                PathOrder::Equal => {
                    replace = true;
                },
                _ => {},
            }
        }
        proof {
            let ii = i as int;
            if replace {
                assert(so[ii].0@ == p);
            } else if ii < so.len() {
                // neither less nor equal, so the entry there comes after
                assert(lex_less(p, so[ii].0@));
            }
        }
        if replace {
            self.entries.remove(i);
            self.entries.insert(i, (path, blob));
        } else {
            self.entries.insert(i, (path, blob));
        }
        proof {
            let sn = self.entries@;
            let ii = i as int;
            // index-by-index relation between the old and the new entries
            if replace {
                let s1 = so.remove(ii);
                so.remove_ensures(ii);
                s1.insert_ensures(ii, e);
                assert(sn.len() == so.len());
                assert(sn[ii] == e);
                assert forall|w: int| 0 <= w < sn.len() && w != ii implies #[trigger] sn[w]
                    == so[w] by {
                    if w > ii {
                        assert(sn[w] == s1[w - 1]);
                        assert(s1[w - 1] == so[w]);
                    }
                }
            } else {
                so.insert_ensures(ii, e);
                assert(sn.len() == so.len() + 1);
                assert(sn[ii] == e);
                assert(forall|w: int| 0 <= w < ii ==> #[trigger] sn[w] == so[w]);
                assert forall|w: int| ii < w < sn.len() implies #[trigger] sn[w] == so[w - 1] by {
                    assert(sn[w] == so[w - 1]);
                }
            }
            assert(sn[ii].0@ == p && sn[ii].1.bytes() == bts);
            // the new entries are still sorted
            if replace {
                assert forall|a: int, b: int| 0 <= a < b < sn.len() implies lex_less(
                    sn[a].0@,
                    sn[b].0@,
                ) by {
                    assert(sn[a].0@ == so[a].0@ && sn[b].0@ == so[b].0@);
                }
            } else {
                assert forall|j: int| ii <= j < so.len() implies lex_less(p, so[j].0@) by {
                    if j > ii {
                        lemma_lex_trans(p, so[ii].0@, so[j].0@);
                    }
                }
                assert forall|a: int, b: int| 0 <= a < b < sn.len() implies lex_less(
                    sn[a].0@,
                    sn[b].0@,
                ) by {
                    if b < ii {
                        assert(sn[a] == so[a] && sn[b] == so[b]);
                    } else if a < ii && b == ii {
                        assert(sn[a] == so[a]);
                    } else if a < ii && b > ii {
                        assert(sn[a] == so[a] && sn[b] == so[b - 1]);
                    } else if a == ii {
                        assert(sn[b] == so[b - 1]);
                    } else {
                        assert(sn[a] == so[a - 1] && sn[b] == so[b - 1]);
                    }
                }
            }
            assert(self.wf());
            lemma_distinct(sn);
            lemma_distinct(so);
            // the mapping gained exactly the one association
            assert forall|k: Seq<u8>| #[trigger] seq_as_map(sn).contains_key(k)
                == seq_as_map(so).insert(p, bts).contains_key(k) by {
                if has_path(sn, k) && k != p {
                    let w = choose|w: int| 0 <= w < sn.len() && sn[w].0@ == k;
                    assert(w != ii);
                    let wo = if replace || w < ii {
                        w
                    } else {
                        w - 1
                    };
                    assert(so[wo].0@ == k);
                    assert(has_path(so, k));
                }
                if k == p {
                    assert(sn[ii].0@ == k);
                    assert(has_path(sn, k));
                }
                if k != p && has_path(so, k) {
                    let w = choose|w: int| 0 <= w < so.len() && so[w].0@ == k;
                    let wn = if replace || w < ii {
                        w
                    } else {
                        w + 1
                    };
                    assert(sn[wn].0@ == k);
                    assert(has_path(sn, k));
                }
            }
            assert forall|k: Seq<u8>| seq_as_map(sn).contains_key(k) implies seq_as_map(sn)[k]
                == seq_as_map(so).insert(p, bts)[k] by {
                let w = choose|w: int| 0 <= w < sn.len() && sn[w].0@ == k;
                lemma_at(sn, w);
                if k == p {
                    assert(w == ii);
                } else {
                    assert(w != ii);
                    let wo = if replace || w < ii {
                        w
                    } else {
                        w - 1
                    };
                    assert(so[wo] == sn[w]);
                    lemma_at(so, wo);
                }
            }
            assert(seq_as_map(sn) =~= seq_as_map(so).insert(p, bts));
        }
    }

    /// Detaches the path and hands back the blob it held, so the caller can
    /// still report on it; the blob's bytes live on for any other holder.
    /// `None` exactly when the path is absent, however often it is tried.
    pub fn remove(&mut self, path: &Vec<u8>) -> (r: Option<Blob>)
        requires
            old(self).wf(),
        ensures
            final(self).wf(),
            r is Some <==> old(self).as_map().contains_key(path@),
            r matches Some(b) ==> b.bytes() == old(self).as_map()[path@],
            final(self).as_map() == old(self).as_map().remove(path@),
    {
        let ghost p = path@;
        let ghost so = self.entries@;
        let n = self.entries.len();
        let mut i: usize = 0;
        while i < n
            invariant
                seq_sorted(so),
                so == old(self).entries@,
                self.entries@ == so,
                i <= n,
                n == so.len(),
                forall|j: int| 0 <= j < i ==> so[j].0@ != p,
                p == path@,
            decreases n - i,
        {
            match lex_cmp(&self.entries[i].0, path) {
                PathOrder::Equal => {
                    let e = self.entries.remove(i);
                    proof {
                        let ii = i as int;
                        let sn = self.entries@;
                        lemma_at(so, ii);
                        lemma_distinct(so);
                        so.remove_ensures(ii);
                        assert(sn.len() == so.len() - 1);
                        assert(forall|w: int| 0 <= w < ii ==> #[trigger] sn[w] == so[w]);
                        assert(forall|w: int| ii <= w < sn.len() ==> #[trigger] sn[w] == so[w + 1]);
                        assert forall|a: int, b: int| 0 <= a < b < sn.len() implies lex_less(
                            sn[a].0@,
                            sn[b].0@,
                        ) by {
                            let ao = if a < ii {
                                a
                            } else {
                                a + 1
                            };
                            let bo = if b < ii {
                                b
                            } else {
                                b + 1
                            };
                            assert(sn[a] == so[ao] && sn[b] == so[bo]);
                        }
                        assert(self.wf());
                        lemma_distinct(sn);
                        assert forall|k: Seq<u8>| #[trigger] seq_as_map(sn).contains_key(k) == (
                        seq_as_map(so).contains_key(k) && k != p) by {
                            if has_path(sn, k) {
                                let w = choose|w: int| 0 <= w < sn.len() && sn[w].0@ == k;
                                let wo = if w < ii {
                                    w
                                } else {
                                    w + 1
                                };
                                assert(so[wo].0@ == k);
                                assert(has_path(so, k));
                                assert(wo != ii);
                                assert(k != p);
                            }
                            if has_path(so, k) && k != p {
                                let w = choose|w: int| 0 <= w < so.len() && so[w].0@ == k;
                                assert(w != ii);
                                let wn = if w < ii {
                                    w
                                } else {
                                    w - 1
                                };
                                assert(sn[wn].0@ == k);
                                assert(has_path(sn, k));
                            }
                        }
                        assert forall|k: Seq<u8>| seq_as_map(sn).contains_key(k) implies seq_as_map(
                            sn,
                        )[k] == seq_as_map(so).remove(p)[k] by {
                            let w = choose|w: int| 0 <= w < sn.len() && sn[w].0@ == k;
                            lemma_at(sn, w);
                            let wo = if w < ii {
                                w
                            } else {
                                w + 1
                            };
                            assert(so[wo] == sn[w]);
                            lemma_at(so, wo);
                        }
                        assert(seq_as_map(sn) =~= seq_as_map(so).remove(p));
                    }
                    return Some(e.1);
                },
                _ => {},
            }
            i = i + 1;
        }
        proof {
            assert(!has_path(so, p));
            assert(seq_as_map(so) =~= seq_as_map(so).remove(p));
        }
        None
    }

    /// A sorted snapshot of the directory: each path with its blob's length,
    /// in lexicographic order, copied out so it stays good to iterate after
    /// the directory moves on.
    pub fn list(&self) -> (r: Vec<(Vec<u8>, usize)>)
        requires
            self.wf(),
        ensures
            r@.len() == self.paths_in_order().len(),
            forall|i: int|
                0 <= i < r@.len() ==> r@[i].0@ == self.paths_in_order()[i]
                    && self.as_map().contains_key(#[trigger] r@[i].0@)
                    && r@[i].1 == self.as_map()[r@[i].0@].len(),
            forall|i: int, j: int| 0 <= i < j < r@.len() ==> lex_less(r@[i].0@, r@[j].0@),
            forall|k: Seq<u8>|
                self.as_map().contains_key(k) ==> exists|i: int|
                    0 <= i < r@.len() && #[trigger] r@[i].0@ == k,
    {
        let n = self.entries.len();
        let mut r: Vec<(Vec<u8>, usize)> = Vec::new();
        let mut i: usize = 0;
        while i < n
            invariant
                self.wf(),
                i <= n,
                n == self.entries@.len(),
                r@.len() == i,
                forall|j: int|
                    0 <= j < i ==> r@[j].0@ == self.entries@[j].0@
                        && r@[j].1 == self.entries@[j].1.bytes().len(),
            decreases n - i,
        {
            let p = self.entries[i].0.clone();
            let l = self.entries[i].1.len();
            proof {
                assert(p@ =~= self.entries@[i as int].0@);
            }
            r.push((p, l));
            i = i + 1;
        }
        proof {
            assert forall|j: int| 0 <= j < r@.len() implies r@[j].0@ == self.paths_in_order()[j]
                && self.as_map().contains_key(#[trigger] r@[j].0@)
                && r@[j].1 == self.as_map()[r@[j].0@].len() by {
                lemma_at(self.entries@, j);
            }
            assert forall|k: Seq<u8>| self.as_map().contains_key(k) implies exists|j: int|
                0 <= j < r@.len() && #[trigger] r@[j].0@ == k by {
                let w = choose|w: int| 0 <= w < self.entries@.len() && self.entries@[w].0@ == k;
                assert(r@[w].0@ == k);
            }
        }
        r
    }
}

/// Round trip: after an upload commits bytes `b` at path `p`, the directory
/// holds `p`, and holds exactly `b` there — whatever it held before.
pub proof fn lemma_insert_then_found(m: Map<Seq<u8>, Seq<u8>>, p: Seq<u8>, b: Seq<u8>)
    ensures
        m.insert(p, b).contains_key(p),
        m.insert(p, b)[p] == b,
{
}

/// Removing a path leaves it absent: a fetch or a second remove right after
/// finds nothing, however often it is tried.
pub proof fn lemma_remove_then_absent(m: Map<Seq<u8>, Seq<u8>>, p: Seq<u8>)
    ensures
        !m.remove(p).contains_key(p),
        m.remove(p).remove(p) == m.remove(p),
{
    assert(m.remove(p).remove(p) =~= m.remove(p));
}

/// Distinct paths are independent: an insert at one path changes neither
/// the presence nor the bytes of any other, so concurrent uploads to
/// distinct paths cannot contaminate each other, in whichever order their
/// inserts commit.
pub proof fn lemma_insert_independent(m: Map<Seq<u8>, Seq<u8>>, p: Seq<u8>, q: Seq<u8>, b: Seq<u8>)
    requires
        p != q,
    ensures
        m.insert(p, b).contains_key(q) == m.contains_key(q),
        m.contains_key(q) ==> m.insert(p, b)[q] == m[q],
{
}

/// Removing one path touches no other.
pub proof fn lemma_remove_independent(m: Map<Seq<u8>, Seq<u8>>, p: Seq<u8>, q: Seq<u8>)
    requires
        p != q,
    ensures
        m.remove(p).contains_key(q) == m.contains_key(q),
        m.contains_key(q) ==> m.remove(p)[q] == m[q],
{
}

impl Default for BlobStore {
    /// The default directory is empty.
    fn default() -> (r: BlobStore)
        ensures
            r.wf(),
            r.as_map() == Map::<Seq<u8>, Seq<u8>>::empty(),
    {
        BlobStore::new()
    }
}

} // verus!
