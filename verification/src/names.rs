//! Snapshot directory naming: construction, parsing, and disjointness.
//!
//! Layout (all directories directly under the snapshot root or the MPT
//! root):
//! - data snapshots: `sqlite_<hex epoch id>`
//! - temp merge:     `sqlite_merge_temp_<old hex><new hex>`
//!   (under the MPT root, only the new epoch's hex)
//! - temp full sync: `sqlite_full_sync_temp_<epoch hex><root hex>`
//! - latest MPT:     `sqlite_latest`
//!
//! Lookup by epoch id only ever consults a canonical `sqlite_<hex>` name.
//! Every temp name differs in length from every canonical name, so no
//! half-built temp directory is reachable by epoch-id lookup; that fact is
//! proved here once and for all.

use vstd::prelude::*;
use vstd::string::*;
use crate::epoch::{EpochId, Hash256, MerkleHash};
use crate::errors::Error;
use crate::hexchars::{
    bytes_of_hex, bytes_of_hex_str, hex_of_bytes, hex_string_of_bytes, is_hex_digit,
    lemma_hex_of_bytes_digits, lemma_hex_of_bytes_injective, lemma_hex_round_trip,
};

verus! {

/// Every snapshot database directory name begins with this prefix.
pub open spec fn spec_dir_prefix() -> Seq<char> {
    "sqlite_"@
}

/// Prefix of merge-temp directory names.
pub open spec fn spec_merge_temp_prefix() -> Seq<char> {
    "sqlite_merge_temp_"@
}

/// Prefix of full-sync-temp directory names.
pub open spec fn spec_full_sync_temp_prefix() -> Seq<char> {
    "sqlite_full_sync_temp_"@
}

/// The name of the single writable `latest` MPT directory.
pub open spec fn spec_latest_mpt_db_name() -> Seq<char> {
    "sqlite_latest"@
}

/// The canonical directory name of an epoch's snapshot.
pub open spec fn spec_snapshot_db_name(epoch: Seq<u8>) -> Seq<char> {
    spec_dir_prefix() + hex_of_bytes(epoch)
}

/// The staging directory name of a merge from `old` to `new`.
pub open spec fn spec_merge_temp_db_name(old: Seq<u8>, new: Seq<u8>) -> Seq<char> {
    spec_merge_temp_prefix() + hex_of_bytes(old) + hex_of_bytes(new)
}

/// The staging directory name of a merge, under the MPT root.
pub open spec fn spec_merge_temp_mpt_db_name(new: Seq<u8>) -> Seq<char> {
    spec_merge_temp_prefix() + hex_of_bytes(new)
}

/// The staging directory name of a full-sync import.
pub open spec fn spec_full_sync_temp_db_name(epoch: Seq<u8>, root: Seq<u8>) -> Seq<char> {
    spec_full_sync_temp_prefix() + hex_of_bytes(epoch) + hex_of_bytes(root)
}

/// A directory path: the holding directory, a separator, the name.
pub open spec fn spec_join(dir: Seq<char>, name: Seq<char>) -> Seq<char> {
    dir + seq!['/'] + name
}

/// What a well-formed canonical snapshot directory name looks like.
pub open spec fn spec_is_snapshot_db_name(s: Seq<char>) -> bool {
    &&& s.len() == 71
    &&& s.subrange(0, 7) == spec_dir_prefix()
    &&& forall|k: int| 7 <= k < 71 ==> is_hex_digit(#[trigger] s[k])
}

/// Whether a name starts with the merge-temp prefix.
pub open spec fn spec_is_merge_temp_db_name(s: Seq<char>) -> bool {
    s.len() >= 18 && s.subrange(0, 18) == spec_merge_temp_prefix()
}

/// No separator anywhere in the sequence.
pub open spec fn spec_has_no_slash(s: Seq<char>) -> bool {
    forall|i: int| 0 <= i < s.len() ==> (#[trigger] s[i]) != '/'
}

/// Whether the sequence holds a separator at all.
pub open spec fn spec_has_slash(s: Seq<char>) -> bool {
    exists|i: int| 0 <= i < s.len() && (#[trigger] s[i]) == '/'
}

/// The MPT root is always the sibling directory of this name, next to the
/// snapshot root.
pub open spec fn spec_mpt_dir_name() -> Seq<char> {
    "mpt_snapshot"@
}

/// `i` is the position of the last separator in `s`.
pub open spec fn spec_last_slash_at(s: Seq<char>, i: int) -> bool {
    &&& 0 <= i < s.len()
    &&& s[i] == '/'
    &&& forall|j: int| i < j < s.len() ==> s[j] != '/'
}

/// The position of the last separator (meaningful when one exists).
pub open spec fn spec_last_slash(s: Seq<char>) -> int {
    choose|i: int| spec_last_slash_at(s, i)
}

/// Everything before the last separator.
pub open spec fn spec_parent_dir(s: Seq<char>) -> Seq<char> {
    s.subrange(0, spec_last_slash(s))
}

/// Everything after the last separator.
pub open spec fn spec_base_name(s: Seq<char>) -> Seq<char> {
    s.subrange(spec_last_slash(s) + 1, s.len() as int)
}

/// A sequence with a separator has a last one.
pub proof fn lemma_last_slash_exists(s: Seq<char>)
    requires
        spec_has_slash(s),
    ensures
        exists|i: int| spec_last_slash_at(s, i),
    decreases s.len(),
{
    if s.last() == '/' {
        assert(spec_last_slash_at(s, s.len() - 1));
    } else {
        let w = choose|i: int| 0 <= i < s.len() && (#[trigger] s[i]) == '/';
        assert(w < s.len() - 1);
        assert(s.drop_last()[w] == '/');
        assert(spec_has_slash(s.drop_last()));
        lemma_last_slash_exists(s.drop_last());
        let i = choose|i: int| spec_last_slash_at(s.drop_last(), i);
        assert(s[i] == '/');
        assert forall|j: int| i < j < s.len() implies s[j] != '/' by {
            if j < s.len() - 1 {
                assert(s.drop_last()[j] == s[j]);
            }
        }
        assert(spec_last_slash_at(s, i));
    }
}

/// There is only one last separator.
pub proof fn lemma_last_slash_unique(s: Seq<char>, i: int)
    requires
        spec_last_slash_at(s, i),
    ensures
        spec_last_slash(s) == i,
{
    assert(spec_last_slash_at(s, spec_last_slash(s)));
    let w = spec_last_slash(s);
    if w < i {
        assert(s[i] == '/');
        assert(false);
    }
    if i < w {
        assert(s[w] == '/');
        assert(false);
    }
}

/// Joining distinct names under one directory gives distinct paths.
pub proof fn lemma_join_same_dir(d: Seq<char>, n1: Seq<char>, n2: Seq<char>)
    requires
        spec_join(d, n1) == spec_join(d, n2),
    ensures
        n1 =~= n2,
{
    let p = spec_join(d, n1);
    assert(spec_join(d, n1).len() == spec_join(d, n2).len());
    assert(spec_join(d, n1).len() == d.len() + 1 + n1.len());
    assert(spec_join(d, n2).len() == d.len() + 1 + n2.len());
    assert(n1.len() == n2.len());
    assert forall|i: int| 0 <= i < n1.len() implies n1[i] == n2[i] by {
        assert(p[d.len() + 1 + i] == n1[i]);
        assert(spec_join(d, n2)[d.len() + 1 + i] == n2[i]);
    }
}

/// Lengths and slash-freedom of the naming literals.
pub proof fn lemma_name_literals()
    ensures
        spec_dir_prefix().len() == 7,
        spec_merge_temp_prefix().len() == 18,
        spec_full_sync_temp_prefix().len() == 22,
        spec_latest_mpt_db_name().len() == 13,
        spec_has_no_slash(spec_dir_prefix()),
        spec_has_no_slash(spec_merge_temp_prefix()),
        spec_has_no_slash(spec_full_sync_temp_prefix()),
        spec_has_no_slash(spec_latest_mpt_db_name()),
        spec_latest_mpt_db_name().subrange(0, 7) =~= spec_dir_prefix(),
        spec_merge_temp_prefix().subrange(0, 7) =~= spec_dir_prefix(),
        spec_full_sync_temp_prefix().subrange(0, 7) =~= spec_dir_prefix(),
{
    reveal_strlit("sqlite_");
    reveal_strlit("sqlite_merge_temp_");
    reveal_strlit("sqlite_full_sync_temp_");
    reveal_strlit("sqlite_latest");
}

/// A hex digit is never the path separator.
pub proof fn lemma_hex_digit_not_slash(c: char)
    requires
        is_hex_digit(c),
    ensures
        c != '/',
{
}

/// Canonical names carry no separator.
pub proof fn lemma_snapshot_db_name_no_slash(epoch: Seq<u8>)
    ensures
        spec_has_no_slash(spec_snapshot_db_name(epoch)),
{
    lemma_name_literals();
    lemma_hex_of_bytes_digits(epoch);
    let s = spec_snapshot_db_name(epoch);
    assert forall|i: int| 0 <= i < s.len() implies (#[trigger] s[i]) != '/' by {
        if i < 7 {
            assert(s[i] == spec_dir_prefix()[i]);
        } else {
            assert(s[i] == hex_of_bytes(epoch)[i - 7]);
        }
    }
}

/// The length of every name form, as a function of its payload.
pub proof fn lemma_name_lengths(a: Seq<u8>, b: Seq<u8>)
    ensures
        spec_snapshot_db_name(a).len() == 7 + 2 * a.len(),
        spec_merge_temp_db_name(a, b).len() == 18 + 2 * a.len() + 2 * b.len(),
        spec_merge_temp_mpt_db_name(a).len() == 18 + 2 * a.len(),
        spec_full_sync_temp_db_name(a, b).len() == 22 + 2 * a.len() + 2 * b.len(),
{
    lemma_name_literals();
}

/// No temp or `latest` name is a canonical 32-byte snapshot name: they all
/// differ in length.  Publication by rename is therefore the only way a
/// directory becomes reachable by epoch-id lookup.
pub proof fn lemma_temp_names_not_canonical(e: Seq<u8>, a: Seq<u8>, b: Seq<u8>)
    requires
        e.len() == 32,
        a.len() == 32,
        b.len() == 32,
    ensures
        spec_snapshot_db_name(e) != spec_merge_temp_db_name(a, b),
        spec_snapshot_db_name(e) != spec_merge_temp_mpt_db_name(a),
        spec_snapshot_db_name(e) != spec_full_sync_temp_db_name(a, b),
        spec_snapshot_db_name(e) != spec_latest_mpt_db_name(),
{
    lemma_name_literals();
    lemma_name_lengths(e, e);
    lemma_name_lengths(a, b);
}

/// Canonical names of distinct epochs are distinct.
pub proof fn lemma_snapshot_db_name_injective(a: Seq<u8>, b: Seq<u8>)
    requires
        spec_snapshot_db_name(a) == spec_snapshot_db_name(b),
    ensures
        a =~= b,
{
    lemma_name_literals();
    let sa = spec_snapshot_db_name(a);
    let sb = spec_snapshot_db_name(b);
    assert(sa.len() == 7 + hex_of_bytes(a).len());
    assert(sb.len() == 7 + hex_of_bytes(b).len());
    assert(hex_of_bytes(a) =~= hex_of_bytes(b)) by {
        assert(hex_of_bytes(a).len() == hex_of_bytes(b).len());
        assert forall|i: int| 0 <= i < hex_of_bytes(a).len() implies hex_of_bytes(a)[i]
            == hex_of_bytes(b)[i] by {
            assert(sa[7 + i] == hex_of_bytes(a)[i]);
            assert(sb[7 + i] == hex_of_bytes(b)[i]);
        }
    }
    lemma_hex_of_bytes_injective(a, b);
}

/// Parsing a canonical name gives back the epoch it was built from.
pub proof fn lemma_snapshot_db_name_round_trip(epoch: Seq<u8>)
    requires
        epoch.len() == 32,
    ensures
        spec_is_snapshot_db_name(spec_snapshot_db_name(epoch)),
        bytes_of_hex(spec_snapshot_db_name(epoch).subrange(7, 71)) =~= epoch,
{
    lemma_name_literals();
    lemma_hex_of_bytes_digits(epoch);
    let s = spec_snapshot_db_name(epoch);
    assert(s.len() == 71);
    assert(s.subrange(0, 7) =~= spec_dir_prefix());
    assert forall|k: int| 7 <= k < 71 implies is_hex_digit(#[trigger] s[k]) by {
        assert(s[k] == hex_of_bytes(epoch)[k - 7]);
    }
    assert(s.subrange(7, 71) =~= hex_of_bytes(epoch));
    lemma_hex_round_trip(epoch);
}

/// A joined path determines its directory and its name, provided the name
/// holds no separator: the separator written by the join is the last one in
/// the path.
pub proof fn lemma_join_injective(d1: Seq<char>, n1: Seq<char>, d2: Seq<char>, n2: Seq<char>)
    requires
        spec_join(d1, n1) == spec_join(d2, n2),
        spec_has_no_slash(n1),
        spec_has_no_slash(n2),
    ensures
        d1 =~= d2,
        n1 =~= n2,
{
    let p = spec_join(d1, n1);
    let p2 = spec_join(d2, n2);
    assert(p[d1.len() as int] == '/');
    assert(p2[d2.len() as int] == '/');
    assert(forall|j: int| d1.len() < j < p.len() ==> #[trigger] p[j] != '/') by {
        assert forall|j: int| d1.len() < j < p.len() implies #[trigger] p[j] != '/' by {
            assert(p[j] == n1[j - d1.len() - 1]);
        }
    }
    assert(forall|j: int| d2.len() < j < p2.len() ==> #[trigger] p2[j] != '/') by {
        assert forall|j: int| d2.len() < j < p2.len() implies #[trigger] p2[j] != '/' by {
            assert(p2[j] == n2[j - d2.len() - 1]);
        }
    }
    if d1.len() < d2.len() {
        assert(p[d2.len() as int] != '/');
        assert(false);
    }
    if d2.len() < d1.len() {
        assert(p2[d1.len() as int] != '/');
        assert(p[d1.len() as int] == '/');
        assert(false);
    }
    assert forall|i: int| 0 <= i < d1.len() implies d1[i] == d2[i] by {
        assert(p[i] == d1[i]);
        assert(spec_join(d2, n2)[i] == d2[i]);
    }
    assert forall|i: int| 0 <= i < n1.len() implies n1[i] == n2[i] by {
        assert(p[d1.len() + 1 + i] == n1[i]);
        assert(spec_join(d2, n2)[d2.len() + 1 + i] == n2[i]);
    }
}

/// Append the 64 hex digits of a hash to a name under construction.
fn append_hash_hex(s: &mut String, h: &Hash256)
    ensures
        final(s)@ == old(s)@ + hex_of_bytes(h@),
{
    let hex = hex_string_of_bytes(h.bytes());
    s.append(hex.as_str());
}

/// `sqlite_<hex epoch>`: the canonical data snapshot directory name.
pub fn snapshot_db_name(epoch: &EpochId) -> (r: String)
    ensures
        r@ == spec_snapshot_db_name(epoch@),
{
    let mut s = String::new();
    s.append("sqlite_");
    append_hash_hex(&mut s, epoch);
    proof {
        assert(s@ =~= spec_snapshot_db_name(epoch@));
    }
    s
}

/// `sqlite_latest`: the name of the writable `latest` MPT directory.
pub fn latest_mpt_db_name() -> (r: String)
    ensures
        r@ == spec_latest_mpt_db_name(),
{
    let mut s = String::new();
    s.append("sqlite_latest");
    proof {
        assert(s@ =~= spec_latest_mpt_db_name());
    }
    s
}

/// `sqlite_merge_temp_<old hex><new hex>`: the merge staging name.
pub fn merge_temp_db_name(old_epoch: &EpochId, new_epoch: &EpochId) -> (r: String)
    ensures
        r@ == spec_merge_temp_db_name(old_epoch@, new_epoch@),
{
    let mut s = String::new();
    s.append("sqlite_merge_temp_");
    append_hash_hex(&mut s, old_epoch);
    append_hash_hex(&mut s, new_epoch);
    proof {
        assert(s@ =~= spec_merge_temp_db_name(old_epoch@, new_epoch@));
    }
    s
}

/// `sqlite_merge_temp_<new hex>`: the merge staging name under the MPT root.
pub fn merge_temp_mpt_db_name(new_epoch: &EpochId) -> (r: String)
    ensures
        r@ == spec_merge_temp_mpt_db_name(new_epoch@),
{
    let mut s = String::new();
    s.append("sqlite_merge_temp_");
    append_hash_hex(&mut s, new_epoch);
    proof {
        assert(s@ =~= spec_merge_temp_mpt_db_name(new_epoch@));
    }
    s
}

/// `sqlite_full_sync_temp_<epoch hex><root hex>`: the import staging name.
pub fn full_sync_temp_db_name(epoch: &EpochId, root: &MerkleHash) -> (r: String)
    ensures
        r@ == spec_full_sync_temp_db_name(epoch@, root@),
{
    let mut s = String::new();
    s.append("sqlite_full_sync_temp_");
    append_hash_hex(&mut s, epoch);
    append_hash_hex(&mut s, root);
    proof {
        assert(s@ =~= spec_full_sync_temp_db_name(epoch@, root@));
    }
    s
}

/// `<dir>/<name>`.
pub fn join_path(dir: &str, name: &str) -> (r: String)
    ensures
        r@ == spec_join(dir@, name@),
{
    proof {
        reveal_strlit("/");
    }
    let mut s = String::from_str(dir);
    s.append("/");
    s.append(name);
    proof {
        assert(s@ =~= spec_join(dir@, name@));
    }
    s
}

/// Whether `s` begins with `prefix`.
pub fn str_has_prefix(s: &str, prefix: &str) -> (r: bool)
    ensures
        r == (s@.len() >= prefix@.len() && s@.subrange(0, prefix@.len() as int) == prefix@),
{
    let n = prefix.unicode_len();
    let sn = s.unicode_len();
    if sn < n {
        return false;
    }
    let mut i: usize = 0;
    while i < n
        invariant
            i <= n,
            n == prefix@.len(),
            n <= s@.len(),
            forall|j: int| 0 <= j < i ==> s@[j] == prefix@[j],
        decreases n - i,
    {
        if s.get_char(i) != prefix.get_char(i) {
            assert(s@.subrange(0, prefix@.len() as int)[i as int] != prefix@[i as int]);
            return false;
        }
        i = i + 1;
    }
    assert(s@.subrange(0, prefix@.len() as int) =~= prefix@);
    true
}

/// Whether a directory name is a merge staging name; used by startup
/// collection of orphan temp directories.
pub fn is_temp_snapshot_db_path(dir_name: &str) -> (r: bool)
    ensures
        r == spec_is_merge_temp_db_name(dir_name@),
{
    proof {
        lemma_name_literals();
    }
    str_has_prefix(dir_name, "sqlite_merge_temp_")
}

/// Read the epoch identifier back out of a canonical snapshot directory
/// name.  Succeeds exactly on well-formed canonical names, and then returns
/// the epoch whose name this is.
pub fn get_epoch_id_from_snapshot_db_name(snapshot_db_name: &str) -> (r: Result<EpochId, Error>)
    ensures
        r is Ok <==> spec_is_snapshot_db_name(snapshot_db_name@),
        r is Ok ==> r->Ok_0.wf() && r->Ok_0@ == bytes_of_hex(snapshot_db_name@.subrange(7, 71)),
{
    proof {
        lemma_name_literals();
    }
    let len = snapshot_db_name.unicode_len();
    if len != 71 {
        return Err(Error::InvalidSnapshotDbName);
    }
    if !str_has_prefix(snapshot_db_name, "sqlite_") {
        return Err(Error::InvalidSnapshotDbName);
    }
    match bytes_of_hex_str(snapshot_db_name, 7, 32) {
        Some(bytes) => {
            proof {
                assert(bytes@.len() == 32);
            }
            Ok(Hash256::from_bytes(bytes))
        },
        None => Err(Error::InvalidSnapshotDbName),
    }
}

/// The directory above the last separator: `parent_dir("/a/b") == "/a"`.
pub fn parent_dir(path: &str) -> (r: Option<String>)
    ensures
        r is Some <==> spec_has_slash(path@),
        r is Some ==> r->0@ == spec_parent_dir(path@),
{
    let len = path.unicode_len();
    let mut i: usize = len;
    while i > 0
        invariant
            i <= len,
            len == path@.len(),
            forall|j: int| i <= j < len ==> #[trigger] path@[j] != '/',
        decreases i,
    {
        i = i - 1;
        if path.get_char(i) == '/' {
            proof {
                assert(spec_last_slash_at(path@, i as int));
                lemma_last_slash_unique(path@, i as int);
            }
            let prefix = path.substring_char(0, i);
            return Some(String::from_str(prefix));
        }
    }
    None
}

/// A path splits as its parent, a separator, and its slash-free base name.
pub proof fn lemma_path_split(s: Seq<char>)
    requires
        spec_has_slash(s),
    ensures
        s =~= spec_join(spec_parent_dir(s), spec_base_name(s)),
        spec_has_no_slash(spec_base_name(s)),
{
    lemma_last_slash_exists(s);
    let i = choose|i: int| spec_last_slash_at(s, i);
    lemma_last_slash_unique(s, i);
}

} // verus!
