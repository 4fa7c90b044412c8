//! The snapshot cache: a persisted list of artifact records mirroring the mod
//! directory. Validation compares the snapshot against the hashes actually on
//! disk, drops records for vanished files, appends freshly resolved ones and
//! re-sorts by title.

use vstd::prelude::*;

use crate::api::{sort_by_title, sorted_titles, Anymod};
use crate::structs::Profile;
use crate::text::{contains_str, has_str, str_set};

verus! {

/// The persisted snapshot: artifact records keyed implicitly by hash, kept
/// sorted by title for stable display.
#[derive(Clone, Debug, PartialEq, Eq)]
pub struct Cache {
    pub elements: Vec<Anymod>,
}

impl Cache {
    /// An empty snapshot, as used on first run.
    pub fn new() -> (c: Cache)
        ensures
            c.elements@.len() == 0,
    {
        Cache { elements: Vec::new() }
    }
}

/// The path of the snapshot file inside a profile's mod directory.
pub fn get_cache_path(profile: &Profile) -> (r: String)
    ensures
        r@ == profile.modsfolder@ + "/cache.toml"@,
{
    let mut s = profile.modsfolder.clone();
    s.append("/cache.toml");
    s
}

/// The hashes of a record list, in order.
pub open spec fn spec_hashes_of(elements: Seq<Anymod>) -> Seq<String> {
    Seq::new(elements.len(), |i: int| elements[i].hash)
}

/// The set of hashes a record list describes.
pub open spec fn snapshot_hash_set(elements: Seq<Anymod>) -> Set<Seq<char>> {
    Set::new(|x: Seq<char>| exists|i: int| 0 <= i < elements.len() && elements[i].hash@ == x)
}

/// Copies the hash of every snapshot record, in order.
pub fn cache_hashes(cache: &Cache) -> (r: Vec<String>)
    ensures
        r@ == spec_hashes_of(cache.elements@),
        str_set(r@) == snapshot_hash_set(cache.elements@),
{
    let mut out: Vec<String> = Vec::new();
    let mut i: usize = 0;
    while i < cache.elements.len()
        invariant
            0 <= i <= cache.elements@.len(),
            out@.len() == i,
            forall|k: int| 0 <= k < i ==> out@[k] == #[trigger] cache.elements@[k].hash,
        decreases cache.elements@.len() - i,
    {
        out.push(cache.elements[i].hash.clone());
        i = i + 1;
    }
    proof {
        assert(out@ =~= spec_hashes_of(cache.elements@));
        assert forall|x: Seq<char>| #[trigger]
            str_set(out@).contains(x) implies snapshot_hash_set(cache.elements@).contains(x) by {
            let k = choose|k: int| 0 <= k < out@.len() && out@[k]@ == x;
            assert(cache.elements@[k].hash@ == x);
        }
        assert forall|x: Seq<char>| #[trigger]
            snapshot_hash_set(cache.elements@).contains(x) implies str_set(out@).contains(x) by {
            let k = choose|k: int| 0 <= k < cache.elements@.len() && cache.elements@[k].hash@ == x;
            assert(out@[k]@ == x);
        }
        assert(str_set(out@) =~= snapshot_hash_set(cache.elements@));
    }
    out
}

/// Computes the validation plan: `added` holds the on-disk hashes the
/// snapshot does not describe yet, `removed` the snapshot hashes no longer
/// present on disk. Both are free of duplicates even when the inputs repeat a
/// hash.
pub fn diff_hashes(current: &Vec<String>, snapshot: &Vec<String>) -> (r: (Vec<String>, Vec<String>))
    ensures
        str_set(r.0@) == str_set(current@).difference(str_set(snapshot@)),
        str_set(r.1@) == str_set(snapshot@).difference(str_set(current@)),
        forall|i: int, j: int|
            #![trigger r.0@[i]@, r.0@[j]@]
            0 <= i < j < r.0@.len() ==> r.0@[i]@ != r.0@[j]@,
        forall|i: int, j: int|
            #![trigger r.1@[i]@, r.1@[j]@]
            0 <= i < j < r.1@.len() ==> r.1@[i]@ != r.1@[j]@,
{
    let added = missing_from(current, snapshot);
    let removed = missing_from(snapshot, current);
    (added, removed)
}

/// The elements of `from` that do not occur in `other`, one copy of each.
fn missing_from(from: &Vec<String>, other: &Vec<String>) -> (r: Vec<String>)
    ensures
        str_set(r@) == str_set(from@).difference(str_set(other@)),
        forall|i: int, j: int|
            #![trigger r@[i]@, r@[j]@]
            0 <= i < j < r@.len() ==> r@[i]@ != r@[j]@,
{
    let mut out: Vec<String> = Vec::new();
    let mut i: usize = 0;
    while i < from.len()
        invariant
            0 <= i <= from@.len(),
            forall|k: int|
                0 <= k < out@.len() ==> has_str(from@, #[trigger] out@[k]@) && !has_str(
                    other@,
                    out@[k]@,
                ),
            forall|x: Seq<char>|
                #[trigger] has_str(from@.take(i as int), x) && !has_str(other@, x) ==> has_str(
                    out@,
                    x,
                ),
            forall|k: int, l: int|
                #![trigger out@[k]@, out@[l]@]
                0 <= k < l < out@.len() ==> out@[k]@ != out@[l]@,
        decreases from@.len() - i,
    {
        let ghost out_before = out@;
        let h = &from[i];
        if !contains_str(other, h) && !contains_str(&out, h) {
            out.push(h.clone());
        }
        proof {
            assert(from@.take(i + 1).drop_last() =~= from@.take(i as int));
            assert(from@.take(i + 1).last() == from@[i as int]);
            assert forall|x: Seq<char>| #[trigger]
                has_str(from@.take(i + 1), x) && !has_str(other@, x) implies has_str(out@, x) by {
                let k = choose|k: int|
                    0 <= k < i + 1 && (#[trigger] from@.take(i + 1)[k]@) == x;
                if k < i {
                    assert(has_str(from@.take(i as int), x));
                    let k2 = choose|k2: int| 0 <= k2 < out_before.len() && out_before[k2]@ == x;
                    assert(out@[k2]@ == x);
                } else {
                    assert(from@[i as int]@ == x);
                    if has_str(out_before, x) {
                        let k2 = choose|k2: int|
                            0 <= k2 < out_before.len() && out_before[k2]@ == x;
                        assert(out@[k2]@ == x);
                    } else {
                        assert(out@ == out_before.push(from@[i as int]));
                        assert(out@[out@.len() - 1]@ == x);
                    }
                }
            }
        }
        i = i + 1;
    }
    proof {
        assert(from@.take(from@.len() as int) =~= from@);
        assert forall|x: Seq<char>| #[trigger]
            str_set(out@).contains(x) implies str_set(from@).difference(str_set(other@)).contains(
            x,
        ) by {
            let k = choose|k: int| 0 <= k < out@.len() && out@[k]@ == x;
            assert(has_str(from@, out@[k]@));
        }
        assert(str_set(out@) =~= str_set(from@).difference(str_set(other@)));
    }
    out
}

/// A validation pass on a snapshot whose hash set already matches the disk
/// is a no-op: the plan `validate_cache` computes is empty both ways.
pub proof fn lemma_validate_idempotent(
    added: Seq<String>,
    removed: Seq<String>,
    current: Seq<String>,
    snap: Set<Seq<char>>,
)
    requires
        str_set(added) == str_set(current).difference(snap),
        str_set(removed) == snap.difference(str_set(current)),
        snap == str_set(current),
    ensures
        added.len() == 0,
        removed.len() == 0,
{
    if added.len() > 0 {
        assert(has_str(added, added[0]@));
        assert(str_set(added).contains(added[0]@));
        assert(false);
    }
    if removed.len() > 0 {
        assert(has_str(removed, removed[0]@));
        assert(str_set(removed).contains(removed[0]@));
        assert(false);
    }
}

/// One full validation pass restores the snapshot invariant: with the plan
/// `validate_cache` computed for the on-disk hashes `current`, and a record
/// resolved for every added hash, the snapshot `apply_validation` produces
/// describes exactly the on-disk hash set. A second pass is then a no-op by
/// `lemma_validate_idempotent`.
pub proof fn lemma_validate_restores(
    cache: Seq<Anymod>,
    current: Seq<String>,
    added: Seq<String>,
    removed: Seq<String>,
    new_records: Seq<Anymod>,
    result: Seq<Anymod>,
)
    requires
        str_set(added) == str_set(current).difference(snapshot_hash_set(cache)),
        str_set(removed) == snapshot_hash_set(cache).difference(str_set(current)),
        snapshot_hash_set(new_records) == str_set(added),
        snapshot_hash_set(result) == snapshot_hash_set(cache).difference(str_set(removed)).union(
            snapshot_hash_set(new_records),
        ),
    ensures
        snapshot_hash_set(result) == str_set(current),
{
    assert(snapshot_hash_set(cache).difference(str_set(removed)).union(
        snapshot_hash_set(new_records),
    ) =~= str_set(current));
}

/// A record list and any reordering of it describe the same hash set.
pub proof fn lemma_hash_set_permutation(a: Seq<Anymod>, b: Seq<Anymod>)
    requires
        a.to_multiset() == b.to_multiset(),
    ensures
        snapshot_hash_set(a) == snapshot_hash_set(b),
{
    broadcast use vstd::seq_lib::group_to_multiset_ensures;

    assert forall|x: Seq<char>| #[trigger]
        snapshot_hash_set(a).contains(x) implies snapshot_hash_set(b).contains(x) by {
        let i = choose|i: int| 0 <= i < a.len() && a[i].hash@ == x;
        assert(a.contains(a[i]));
        assert(a.to_multiset().count(a[i]) > 0);
        assert(b.contains(a[i]));
        let j = choose|j: int| 0 <= j < b.len() && b[j] == a[i];
        assert(b[j].hash@ == x);
    }
    assert forall|x: Seq<char>| #[trigger]
        snapshot_hash_set(b).contains(x) implies snapshot_hash_set(a).contains(x) by {
        let i = choose|i: int| 0 <= i < b.len() && b[i].hash@ == x;
        assert(b.contains(b[i]));
        assert(b.to_multiset().count(b[i]) > 0);
        assert(a.contains(b[i]));
        let j = choose|j: int| 0 <= j < a.len() && a[j] == b[i];
        assert(a[j].hash@ == x);
    }
    assert(snapshot_hash_set(a) =~= snapshot_hash_set(b));
}

/// The snapshot records whose hashes survive the `removed` drop.
#[verifier::loop_isolation(false)]
fn retain_unremoved(elements: Vec<Anymod>, removed: &Vec<String>) -> (r: Vec<Anymod>)
    ensures
        r@ == elements@.filter((|m: Anymod| !has_str(removed@, m.hash@))),
{
    let ghost orig = elements@;
    let ghost pred = (|m: Anymod| !has_str(removed@, m.hash@));
    let mut rest = elements;
    let mut out: Vec<Anymod> = Vec::new();
    proof {
        reveal(Seq::filter);
        assert(orig.take(0) =~= Seq::<Anymod>::empty());
        assert(orig.take(0).filter(pred) =~= Seq::<Anymod>::empty());
    }
    while rest.len() > 0
        invariant
            rest@.len() <= orig.len(),
            orig =~= orig.take(orig.len() - rest@.len()) + rest@,
            out@ =~= orig.take(orig.len() - rest@.len()).filter(pred),
        decreases rest@.len(),
    {
        let ghost done = orig.len() - rest@.len();
        let ghost before = rest@;
        let m = rest.remove(0);
        proof {
            reveal(Seq::filter);
            assert(before.remove(0) =~= before.drop_first());
            assert(orig[done] == m);
            assert(orig.take(done + 1) =~= orig.take(done).push(orig[done]));
            assert(orig.take(done + 1).drop_last() =~= orig.take(done));
            assert(orig.take(done + 1).last() == m);
            if pred(m) {
                assert(orig.take(done + 1).filter(pred) =~= orig.take(done).filter(pred).push(m));
            } else {
                assert(orig.take(done + 1).filter(pred) =~= orig.take(done).filter(pred));
            }
        }
        if !contains_str(removed, &m.hash) {
            out.push(m);
        }
    }
    proof {
        assert(orig.take(orig.len() - 0) =~= orig);
    }
    out
}

/// Applies a validation plan to the snapshot: records whose hash is in
/// `removed` are dropped, the freshly resolved `new_records` are appended,
/// and the result is re-sorted by title. The resulting snapshot describes
/// exactly `(old hashes − removed) ∪ new hashes`.
pub fn apply_validation(cache: Cache, new_records: Vec<Anymod>, removed: &Vec<String>) -> (r: Cache)
    ensures
        sorted_titles(r.elements@),
        r.elements@.to_multiset() == cache.elements@.filter(
            (|m: Anymod| !has_str(removed@, m.hash@)),
        ).to_multiset().add(new_records@.to_multiset()),
        snapshot_hash_set(r.elements@) == snapshot_hash_set(cache.elements@).difference(
            str_set(removed@),
        ).union(snapshot_hash_set(new_records@)),
{
    broadcast use vstd::seq_lib::group_to_multiset_ensures;
    broadcast use vstd::seq_lib::group_filter_ensures;

    let ghost pred = (|m: Anymod| !has_str(removed@, m.hash@));
    let mut kept = retain_unremoved(cache.elements, removed);
    let ghost kept_seq = kept@;
    let mut new_records = new_records;
    let ghost new_seq = new_records@;
    kept.append(&mut new_records);
    proof {
        lemma_to_multiset_add(kept_seq, new_seq);
    }
    let sorted = sort_by_title(kept);
    proof {
        lemma_hash_set_permutation(sorted@, kept_seq + new_seq);
        assert forall|x: Seq<char>| #[trigger]
            snapshot_hash_set(kept_seq + new_seq).contains(x) implies snapshot_hash_set(
            cache.elements@,
        ).difference(str_set(removed@)).union(snapshot_hash_set(new_seq)).contains(x) by {
            let i = choose|i: int|
                0 <= i < (kept_seq + new_seq).len() && (kept_seq + new_seq)[i].hash@ == x;
            if i < kept_seq.len() {
                assert(kept_seq[i] == cache.elements@.filter(pred)[i]);
                assert(pred(kept_seq[i]));
                assert(cache.elements@.filter(pred).contains(kept_seq[i]));
                cache.elements@.lemma_filter_contains_rev(pred, kept_seq[i]);
                assert(cache.elements@.contains(kept_seq[i]));
                let j = choose|j: int|
                    0 <= j < cache.elements@.len() && cache.elements@[j] == kept_seq[i];
                assert(cache.elements@[j].hash@ == x);
            } else {
                assert(new_seq[i - kept_seq.len()].hash@ == x);
            }
        }
        assert forall|x: Seq<char>|
            snapshot_hash_set(cache.elements@).difference(str_set(removed@)).union(
                snapshot_hash_set(new_seq),
            ).contains(x) implies #[trigger] snapshot_hash_set(kept_seq + new_seq).contains(x) by {
            if snapshot_hash_set(new_seq).contains(x) {
                let i = choose|i: int| 0 <= i < new_seq.len() && new_seq[i].hash@ == x;
                assert((kept_seq + new_seq)[kept_seq.len() + i].hash@ == x);
            } else {
                let i = choose|i: int|
                    0 <= i < cache.elements@.len() && cache.elements@[i].hash@ == x;
                assert(pred(cache.elements@[i]));
                assert(cache.elements@.filter(pred).contains(cache.elements@[i]));
                let j = choose|j: int|
                    0 <= j < kept_seq.len() && kept_seq[j] == cache.elements@[i];
                assert((kept_seq + new_seq)[j].hash@ == x);
            }
        }
        assert(snapshot_hash_set(kept_seq + new_seq) =~= snapshot_hash_set(
            cache.elements@,
        ).difference(str_set(removed@)).union(snapshot_hash_set(new_seq)));
    }
    Cache { elements: sorted }
}

/// Concatenating record lists adds their multisets.
proof fn lemma_to_multiset_add(a: Seq<Anymod>, b: Seq<Anymod>)
    ensures
        (a + b).to_multiset() == a.to_multiset().add(b.to_multiset()),
    decreases b.len(),
{
    broadcast use vstd::seq_lib::group_to_multiset_ensures;
    broadcast use vstd::multiset::group_multiset_axioms;

    if b.len() == 0 {
        assert(a + b =~= a);
        assert(b.to_multiset() =~= vstd::multiset::Multiset::<Anymod>::empty());
        assert((a + b).to_multiset() =~= a.to_multiset().add(b.to_multiset()));
    } else {
        lemma_to_multiset_add(a, b.drop_last());
        assert(a + b =~= (a + b.drop_last()).push(b.last()));
        assert(b =~= b.drop_last().push(b.last()));
        assert((a + b).to_multiset() =~= a.to_multiset().add(b.to_multiset()));
    }
}

/// Combines `diff_hashes` and `apply_validation` into the whole validation
/// plan for one snapshot: the hashes to resolve remotely and the hashes whose
/// records must go.
pub fn validate_cache(cache: &Cache, current: &Vec<String>) -> (r: (Vec<String>, Vec<String>))
    ensures
        str_set(r.0@) == str_set(current@).difference(snapshot_hash_set(cache.elements@)),
        str_set(r.1@) == snapshot_hash_set(cache.elements@).difference(str_set(current@)),
{
    let snapshot = cache_hashes(cache);
    diff_hashes(current, &snapshot)
}

} // verus!
