//! The content model of one snapshot database directory.
//!
//! A snapshot database holds key-value rows of world state, a staged *delta
//! dump* (the rows of the delta MPT between two epochs, waiting to be
//! merged), a flag saying whether the MPT table lives inline in this
//! database, and the root recorded by the last merge.
//!
//! The merkle algorithm itself is an external collaborator of the manager
//! and is not specified here; all the manager requires of a root is that it
//! is a deterministic function of the database rows, so a word-sized fold
//! digest stands in for it.

use vstd::prelude::*;
use vstd::slice::slice_to_vec;
use crate::epoch::{Hash256, MerkleHash};

verus! {

/// One key-value row.
pub struct KvPair {
    pub key: Vec<u8>,
    pub value: Vec<u8>,
}

impl View for KvPair {
    type V = (Seq<u8>, Seq<u8>);

    open spec fn view(&self) -> (Seq<u8>, Seq<u8>) {
        (self.key@, self.value@)
    }
}

/// The abstraction of a row vector.
pub open spec fn rows_view(s: Seq<KvPair>) -> Seq<(Seq<u8>, Seq<u8>)> {
    Seq::new(s.len(), |i: int| (s[i].key@, s[i].value@))
}

/// No two rows share a key.
pub open spec fn rows_unique(r: Seq<(Seq<u8>, Seq<u8>)>) -> bool {
    forall|i: int, j: int| 0 <= i < j < r.len() ==> (#[trigger] r[i]).0 != (#[trigger] r[j]).0
}

/// Whether some row holds the key.
pub open spec fn rows_contain(r: Seq<(Seq<u8>, Seq<u8>)>, k: Seq<u8>) -> bool {
    exists|i: int| 0 <= i < r.len() && (#[trigger] r[i]).0 == k
}

/// The value under a key, if any row holds it.
pub open spec fn spec_rows_lookup(r: Seq<(Seq<u8>, Seq<u8>)>, k: Seq<u8>) -> Option<Seq<u8>> {
    if rows_contain(r, k) {
        Some(r[choose|i: int| 0 <= i < r.len() && (#[trigger] r[i]).0 == k].1)
    } else {
        None
    }
}

/// Insert or overwrite one key.
pub open spec fn spec_upsert(r: Seq<(Seq<u8>, Seq<u8>)>, k: Seq<u8>, v: Seq<u8>) -> Seq<
    (Seq<u8>, Seq<u8>),
> {
    if rows_contain(r, k) {
        r.update(choose|i: int| 0 <= i < r.len() && (#[trigger] r[i]).0 == k, (k, v))
    } else {
        r.push((k, v))
    }
}

/// Apply a delta dump row by row, in dump order.
pub open spec fn spec_apply_delta(
    r: Seq<(Seq<u8>, Seq<u8>)>,
    d: Seq<(Seq<u8>, Seq<u8>)>,
) -> Seq<(Seq<u8>, Seq<u8>)>
    decreases d.len(),
{
    if d.len() == 0 {
        r
    } else {
        spec_apply_delta(spec_upsert(r, d.first().0, d.first().1), d.drop_first())
    }
}

/// Upserting keeps keys pairwise distinct.
pub proof fn lemma_upsert_unique(r: Seq<(Seq<u8>, Seq<u8>)>, k: Seq<u8>, v: Seq<u8>)
    requires
        rows_unique(r),
    ensures
        rows_unique(spec_upsert(r, k, v)),
        spec_upsert(r, k, v).len() <= r.len() + 1,
{
    if rows_contain(r, k) {
        let i = choose|i: int| 0 <= i < r.len() && (#[trigger] r[i]).0 == k;
        let t = r.update(i, (k, v));
        assert forall|a: int, b: int| 0 <= a < b < t.len() implies (#[trigger] t[a]).0 != (
        #[trigger] t[b]).0 by {
            assert(r[a].0 != r[b].0);
        }
    } else {
        let t = r.push((k, v));
        assert forall|a: int, b: int| 0 <= a < b < t.len() implies (#[trigger] t[a]).0 != (
        #[trigger] t[b]).0 by {
            if b < r.len() {
                assert(r[a].0 != r[b].0);
            } else {
                assert(t[b].0 == k);
                assert(t[a] == r[a]);
                assert(!rows_contain(r, k));
            }
        }
    }
}

/// Applying a delta keeps keys pairwise distinct.
pub proof fn lemma_apply_delta_unique(r: Seq<(Seq<u8>, Seq<u8>)>, d: Seq<(Seq<u8>, Seq<u8>)>)
    requires
        rows_unique(r),
    ensures
        rows_unique(spec_apply_delta(r, d)),
    decreases d.len(),
{
    if d.len() > 0 {
        lemma_upsert_unique(r, d.first().0, d.first().1);
        lemma_apply_delta_unique(spec_upsert(r, d.first().0, d.first().1), d.drop_first());
    }
}

/// One step of the stand-in digest: rotate and fold one byte in.
pub open spec fn mix64(h: u64, b: u8) -> u64 {
    ((h << 7) | (h >> 57)) ^ (b as u64)
}

/// Fold a byte string into the digest.
pub open spec fn digest_bytes(h: u64, s: Seq<u8>) -> u64
    decreases s.len(),
{
    if s.len() == 0 {
        h
    } else {
        digest_bytes(mix64(h, s.first()), s.drop_first())
    }
}

/// Fold one row into the digest: a separator, the key, the value.
pub open spec fn digest_row(h: u64, kv: (Seq<u8>, Seq<u8>)) -> u64 {
    digest_bytes(digest_bytes(mix64(h, 1), kv.0), kv.1)
}

/// Fold a row sequence into the digest.
pub open spec fn digest_rows(h: u64, r: Seq<(Seq<u8>, Seq<u8>)>) -> u64
    decreases r.len(),
{
    if r.len() == 0 {
        h
    } else {
        digest_rows(digest_row(h, r.first()), r.drop_first())
    }
}

/// The root recorded for a row sequence.
pub open spec fn spec_db_root(r: Seq<(Seq<u8>, Seq<u8>)>) -> u64 {
    digest_rows(0xcbf29ce484222325, r)
}

/// The 32-byte rendering of a digest word: its little-endian bytes, zero
/// padded.
pub open spec fn spec_root_hash(w: u64) -> Seq<u8> {
    Seq::new(32, |i: int| if i < 8 { (w >> (8 * i)) as u8 } else { 0u8 })
}

/// The 32-byte hash recorded for a digest word.
pub fn merkle_hash_of_word(w: u64) -> (r: MerkleHash)
    ensures
        r@ == spec_root_hash(w),
        r.wf(),
{
    let mut bytes: Vec<u8> = Vec::new();
    let mut i: usize = 0;
    while i < 32
        invariant
            i <= 32,
            bytes@.len() == i,
            forall|j: int|
                0 <= j < i ==> bytes@[j] == (if j < 8 {
                    (w >> (8 * j)) as u8
                } else {
                    0u8
                }),
        decreases 32 - i,
    {
        if i < 8 {
            let shift: u64 = 8 * (i as u64);
            bytes.push((w >> shift) as u8);
        } else {
            bytes.push(0u8);
        }
        i = i + 1;
    }
    assert(bytes@ =~= spec_root_hash(w));
    Hash256::from_bytes(bytes)
}

fn mix_step(h: u64, b: u8) -> (r: u64)
    ensures
        r == mix64(h, b),
{
    ((h << 7u64) | (h >> 57u64)) ^ (b as u64)
}

fn digest_bytes_exec(h: u64, bytes: &Vec<u8>) -> (r: u64)
    ensures
        r == digest_bytes(h, bytes@),
{
    let mut cur: u64 = h;
    let mut i: usize = 0;
    proof {
        assert(bytes@.subrange(0, bytes@.len() as int) =~= bytes@);
    }
    while i < bytes.len()
        invariant
            i <= bytes@.len(),
            digest_bytes(h, bytes@) == digest_bytes(cur, bytes@.subrange(i as int, bytes@.len() as int)),
        decreases bytes@.len() - i,
    {
        proof {
            let rest = bytes@.subrange(i as int, bytes@.len() as int);
            assert(rest.first() == bytes@[i as int]);
            assert(rest.drop_first() =~= bytes@.subrange(i as int + 1, bytes@.len() as int));
        }
        cur = mix_step(cur, bytes[i]);
        i = i + 1;
    }
    proof {
        assert(bytes@.subrange(bytes@.len() as int, bytes@.len() as int) =~= Seq::<u8>::empty());
    }
    cur
}

/// An owned copy of a byte vector.
pub fn clone_bytes(v: &Vec<u8>) -> (r: Vec<u8>)
    ensures
        r@ == v@,
{
    slice_to_vec(v.as_slice())
}

/// Whether two byte vectors hold the same bytes.
pub fn bytes_eq(a: &Vec<u8>, b: &Vec<u8>) -> (r: bool)
    ensures
        r == (a@ == b@),
{
    if a.len() != b.len() {
        return false;
    }
    let mut i: usize = 0;
    while i < a.len()
        invariant
            a@.len() == b@.len(),
            i <= a@.len(),
            forall|j: int| 0 <= j < i ==> a@[j] == b@[j],
        decreases a@.len() - i,
    {
        if a[i] != b[i] {
            return false;
        }
        i = i + 1;
    }
    assert(a@ =~= b@);
    true
}

fn clone_rows(rows: &Vec<KvPair>) -> (r: Vec<KvPair>)
    ensures
        rows_view(r@) == rows_view(rows@),
{
    let mut out: Vec<KvPair> = Vec::new();
    let mut i: usize = 0;
    while i < rows.len()
        invariant
            i <= rows@.len(),
            out@.len() == i,
            forall|j: int|
                0 <= j < i ==> (#[trigger] out@[j]).key@ == rows@[j].key@ && out@[j].value@
                    == rows@[j].value@,
        decreases rows@.len() - i,
    {
        out.push(KvPair { key: clone_bytes(&rows[i].key), value: clone_bytes(&rows[i].value) });
        i = i + 1;
    }
    assert(rows_view(out@) =~= rows_view(rows@));
    out
}

fn find_row(rows: &Vec<KvPair>, key: &Vec<u8>) -> (r: Option<usize>)
    ensures
        match r {
            Some(i) => i < rows@.len() && rows_view(rows@)[i as int].0 == key@,
            None => !rows_contain(rows_view(rows@), key@),
        },
{
    let ghost rv = rows_view(rows@);
    let mut i: usize = 0;
    while i < rows.len()
        invariant
            i <= rows@.len(),
            rv == rows_view(rows@),
            forall|j: int| 0 <= j < i ==> (#[trigger] rv[j]).0 != key@,
        decreases rows@.len() - i,
    {
        if bytes_eq(&rows[i].key, key) {
            return Some(i);
        }
        i = i + 1;
    }
    None
}

fn upsert_row(rows: &mut Vec<KvPair>, key: Vec<u8>, value: Vec<u8>)
    requires
        rows_unique(rows_view(old(rows)@)),
    ensures
        rows_view(final(rows)@) == spec_upsert(rows_view(old(rows)@), key@, value@),
        rows_unique(rows_view(final(rows)@)),
{
    proof {
        lemma_upsert_unique(rows_view(rows@), key@, value@);
    }
    let ghost k0 = key@;
    let ghost v0 = value@;
    let ghost r0 = rows_view(rows@);
    match find_row(rows, &key) {
        Some(i) => {
            proof {
                assert(r0[i as int].0 == k0);
                assert(rows_contain(r0, k0));
                let w = choose|w: int| 0 <= w < r0.len() && (#[trigger] r0[w]).0 == k0;
                assert(r0[w].0 == k0 && r0[i as int].0 == k0);
                assert(w == i);
                assert(spec_upsert(r0, k0, v0) == r0.update(i as int, (k0, v0)));
            }
            rows[i] = KvPair { key, value };
            proof {
                assert(rows_view(rows@) =~= r0.update(i as int, (k0, v0)));
            }
        },
        None => {
            rows.push(KvPair { key, value });
            proof {
                assert(rows_view(rows@) =~= spec_upsert(r0, k0, v0));
            }
        },
    }
}

/// The abstraction of one snapshot database directory.
pub ghost struct DbView {
    pub rows: Seq<(Seq<u8>, Seq<u8>)>,
    pub delta: Seq<(Seq<u8>, Seq<u8>)>,
    pub mpt_inline: bool,
    pub root: u64,
}

/// One snapshot database directory: world-state rows, the staged delta
/// dump, the MPT placement flag, and the recorded root.
pub struct DbStore {
    rows: Vec<KvPair>,
    delta: Vec<KvPair>,
    mpt_inline: bool,
    root: u64,
}

impl View for DbStore {
    type V = DbView;

    closed spec fn view(&self) -> DbView {
        DbView {
            rows: rows_view(self.rows@),
            delta: rows_view(self.delta@),
            mpt_inline: self.mpt_inline,
            root: self.root,
        }
    }
}

/// The view of a database none of whose rows were written yet.
pub open spec fn spec_empty_db(mpt_inline: bool) -> DbView {
    DbView {
        rows: Seq::empty(),
        delta: Seq::empty(),
        mpt_inline,
        root: spec_db_root(Seq::empty()),
    }
}

/// Rows of a well-formed database have pairwise-distinct keys.
pub open spec fn db_inv(d: DbView) -> bool {
    rows_unique(d.rows)
}

impl DbStore {
    /// A freshly created database, no rows, no dump.
    pub fn empty(mpt_inline: bool) -> (r: DbStore)
        ensures
            r@ == spec_empty_db(mpt_inline),
            db_inv(r@),
    {
        let r = DbStore { rows: Vec::new(), delta: Vec::new(), mpt_inline, root: 0xcbf29ce484222325 };
        proof {
            assert(rows_view(r.rows@) =~= Seq::<(Seq<u8>, Seq<u8>)>::empty());
            assert(rows_view(r.delta@) =~= Seq::<(Seq<u8>, Seq<u8>)>::empty());
        }
        r
    }

    /// A deep copy; what a byte-wise or reflink directory copy produces.
    pub fn duplicate(&self) -> (r: DbStore)
        ensures
            r@ == self@,
    {
        DbStore {
            rows: clone_rows(&self.rows),
            delta: clone_rows(&self.delta),
            mpt_inline: self.mpt_inline,
            root: self.root,
        }
    }

    /// Whether the MPT table lives inline in this database.
    pub fn mpt_table_inline(&self) -> (r: bool)
        ensures
            r == self@.mpt_inline,
    {
        self.mpt_inline
    }

    /// The root recorded by the last merge.
    pub fn root_word(&self) -> (r: u64)
        ensures
            r == self@.root,
    {
        self.root
    }

    /// Drop the MPT table of a copied database that will keep its MPT in an
    /// isolated database.
    pub fn drop_mpt_table(&mut self)
        ensures
            final(self)@ == (DbView { mpt_inline: false, ..old(self)@ }),
    {
        self.mpt_inline = false;
    }

    /// Discard the staged delta dump inherited from a copied database.
    pub fn drop_delta_dump(&mut self)
        ensures
            final(self)@ == (DbView { delta: Seq::empty(), ..old(self)@ }),
    {
        self.delta = Vec::new();
        proof {
            assert(rows_view(self.delta@) =~= Seq::<(Seq<u8>, Seq<u8>)>::empty());
        }
    }

    /// Stage a delta dump: append its rows to the dump table.
    pub fn dump_delta(&mut self, mut delta: Vec<KvPair>)
        ensures
            final(self)@ == (DbView {
                delta: old(self)@.delta + rows_view(delta@),
                ..old(self)@
            }),
    {
        let ghost d0 = self.delta@;
        let ghost dd = delta@;
        self.delta.append(&mut delta);
        proof {
            assert(rows_view(d0 + dd) =~= rows_view(d0) + rows_view(dd));
        }
    }

    /// Merge the staged dump into the rows and record the new root.
    ///
    /// This is the content effect of `direct_merge`: every dumped row is
    /// upserted in dump order, the dump table is cleared, and the recorded
    /// root becomes the digest of the merged rows.
    pub fn direct_merge(&mut self) -> (r: u64)
        requires
            db_inv(old(self)@),
        ensures
            final(self)@.rows == spec_apply_delta(old(self)@.rows, old(self)@.delta),
            final(self)@.delta == Seq::<(Seq<u8>, Seq<u8>)>::empty(),
            final(self)@.mpt_inline == old(self)@.mpt_inline,
            final(self)@.root == spec_db_root(final(self)@.rows),
            r == final(self)@.root,
            db_inv(final(self)@),
    {
        let ghost r0 = rows_view(self.rows@);
        let ghost d0 = rows_view(self.delta@);
        let mut i: usize = 0;
        proof {
            assert(d0.subrange(0, d0.len() as int) =~= d0);
        }
        while i < self.delta.len()
            invariant
                i <= self.delta@.len(),
                d0 == rows_view(self.delta@),
                self@.mpt_inline == old(self)@.mpt_inline,
                rows_unique(rows_view(self.rows@)),
                spec_apply_delta(r0, d0) == spec_apply_delta(
                    rows_view(self.rows@),
                    d0.subrange(i as int, d0.len() as int),
                ),
            decreases self.delta@.len() - i,
        {
            let key = clone_bytes(&self.delta[i].key);
            let value = clone_bytes(&self.delta[i].value);
            proof {
                let rest = d0.subrange(i as int, d0.len() as int);
                assert(rest.first() == d0[i as int]);
                assert(rest.drop_first() =~= d0.subrange(i as int + 1, d0.len() as int));
            }
            upsert_row(&mut self.rows, key, value);
            i = i + 1;
        }
        proof {
            assert(d0.subrange(d0.len() as int, d0.len() as int) =~= Seq::<
                (Seq<u8>, Seq<u8>),
            >::empty());
        }
        self.delta = Vec::new();
        let root = self.compute_root();
        self.root = root;
        proof {
            assert(rows_view(self.delta@) =~= Seq::<(Seq<u8>, Seq<u8>)>::empty());
        }
        root
    }

    /// Rebuild this database's rows from another database, then merge the
    /// staged dump; the content effect of `copy_and_merge`, the byte-wise
    /// fallback when no directory copy was possible.
    pub fn copy_and_merge(&mut self, source: &DbStore) -> (r: u64)
        requires
            db_inv(source@),
        ensures
            final(self)@.rows == spec_apply_delta(source@.rows, old(self)@.delta),
            final(self)@.delta == Seq::<(Seq<u8>, Seq<u8>)>::empty(),
            final(self)@.mpt_inline == old(self)@.mpt_inline,
            final(self)@.root == spec_db_root(final(self)@.rows),
            r == final(self)@.root,
            db_inv(final(self)@),
    {
        self.rows = clone_rows(&source.rows);
        self.direct_merge()
    }

    /// The digest of the current rows.
    fn compute_root(&self) -> (r: u64)
        ensures
            r == spec_db_root(self@.rows),
    {
        let ghost rows = rows_view(self.rows@);
        let mut cur: u64 = 0xcbf29ce484222325;
        let mut i: usize = 0;
        proof {
            assert(rows.subrange(0, rows.len() as int) =~= rows);
        }
        while i < self.rows.len()
            invariant
                i <= self.rows@.len(),
                rows == rows_view(self.rows@),
                digest_rows(0xcbf29ce484222325, rows) == digest_rows(
                    cur,
                    rows.subrange(i as int, rows.len() as int),
                ),
            decreases self.rows@.len() - i,
        {
            proof {
                let rest = rows.subrange(i as int, rows.len() as int);
                assert(rest.first() == rows[i as int]);
                assert(rest.drop_first() =~= rows.subrange(i as int + 1, rows.len() as int));
            }
            let h1 = mix_step(cur, 1);
            let h2 = digest_bytes_exec(h1, &self.rows[i].key);
            cur = digest_bytes_exec(h2, &self.rows[i].value);
            i = i + 1;
        }
        proof {
            assert(rows.subrange(rows.len() as int, rows.len() as int) =~= Seq::<
                (Seq<u8>, Seq<u8>),
            >::empty());
        }
        cur
    }

    /// The value stored under a key.
    pub fn get_value(&self, key: &Vec<u8>) -> (r: Option<&Vec<u8>>)
        requires
            db_inv(self@),
        ensures
            r is Some <==> spec_rows_lookup(self@.rows, key@) is Some,
            r is Some ==> Some(r->0@) == spec_rows_lookup(self@.rows, key@),
    {
        let ghost rows = rows_view(self.rows@);
        let mut i: usize = 0;
        while i < self.rows.len()
            invariant
                i <= self.rows@.len(),
                rows == rows_view(self.rows@),
                rows_unique(rows),
                forall|j: int| 0 <= j < i ==> (#[trigger] rows[j]).0 != key@,
            decreases self.rows@.len() - i,
        {
            if bytes_eq(&self.rows[i].key, key) {
                proof {
                    assert(rows[i as int].0 == key@);
                    let w = choose|w: int| 0 <= w < rows.len() && (#[trigger] rows[w]).0 == key@;
                    assert(w == i);
                }
                return Some(&self.rows[i].value);
            }
            i = i + 1;
        }
        proof {
            assert(!rows_contain(rows, key@));
        }
        None
    }

    /// How many rows the database holds.
    pub fn row_count(&self) -> (r: usize)
        ensures
            r == self@.rows.len(),
    {
        self.rows.len()
    }
}

} // verus!
