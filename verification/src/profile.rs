//! The lock registry and the configuration profiles: pure transformations on
//! the persisted lock list and profile list. Reading and writing the files
//! themselves is the caller's business.

use vstd::prelude::*;

use crate::api::Anymod;
use crate::mfio::MFText;
use crate::structs::{Config, Locks, MfError, Profile};

verus! {

/// Passes the parsed lock list through, turning an empty one into the
/// distinct "no locks yet" condition.
pub fn get_locks(locks: Locks) -> (r: Result<Vec<String>, MfError>)
    ensures
        locks.lock@.len() == 0 ==> r == Err::<Vec<String>, MfError>(MfError::NoLocks),
        locks.lock@.len() > 0 ==> r == Ok::<Vec<String>, MfError>(locks.lock),
{
    if locks.lock.len() == 0 {
        Err(MfError::NoLocks)
    } else {
        Ok(locks.lock)
    }
}

/// Appends a hash to the lock list. Duplicates are kept as given; a dangling
/// lock is tolerated, not an error.
pub fn write_lock(locks: Locks, hash: String) -> (r: Locks)
    ensures
        r.lock@ == locks.lock@.push(hash),
{
    let mut lock = locks.lock;
    lock.push(hash);
    Locks { lock }
}

/// Drops every occurrence of a hash from the lock list.
#[verifier::loop_isolation(false)]
pub fn remove_lock(locks: Locks, hash: &String) -> (r: Locks)
    ensures
        r.lock@ == locks.lock@.filter((|l: String| l@ != hash@)),
{
    let ghost orig = locks.lock@;
    let ghost pred = (|l: String| l@ != hash@);
    let mut rest = locks.lock;
    let mut out: Vec<String> = Vec::new();
    proof {
        reveal(Seq::filter);
        assert(orig.take(0) =~= Seq::<String>::empty());
        assert(orig.take(0).filter(pred) =~= Seq::<String>::empty());
    }
    while rest.len() > 0
        invariant
            rest@.len() <= orig.len(),
            orig =~= orig.take(orig.len() - rest@.len()) + rest@,
            out@ =~= orig.take(orig.len() - rest@.len()).filter(pred),
        decreases rest@.len(),
    {
        let ghost done = orig.len() - rest@.len();
        let ghost before = rest@;
        let l = rest.remove(0);
        proof {
            reveal(Seq::filter);
            assert(before.remove(0) =~= before.drop_first());
            assert(orig[done] == l);
            assert(orig.take(done + 1) =~= orig.take(done).push(orig[done]));
            assert(orig.take(done + 1).drop_last() =~= orig.take(done));
            if pred(l) {
                assert(orig.take(done + 1).filter(pred) =~= orig.take(done).filter(pred).push(l));
            } else {
                assert(orig.take(done + 1).filter(pred) =~= orig.take(done).filter(pred));
            }
        }
        if !l.eq(hash) {
            out.push(l);
        }
    }
    proof {
        assert(orig.take(orig.len() - 0) =~= orig);
    }
    Locks { lock: out }
}

/// The index of the first record carrying hash `h`, if one does.
pub open spec fn spec_find_by_hash(mods: Seq<Anymod>, h: Seq<char>) -> Option<int> {
    if exists|i: int| 0 <= i < mods.len() && mods[i].hash@ == h {
        Some(choose|i: int| 0 <= i < mods.len() && mods[i].hash@ == h && forall|j: int| 0 <= j < i ==> mods[j].hash@ != h)
    } else {
        None
    }
}

/// Finds the first record carrying hash `h`.
pub fn find_by_hash(mods: &Vec<Anymod>, h: &String) -> (r: Option<usize>)
    ensures
        match r {
            Some(k) => k < mods@.len() && mods@[k as int].hash@ == h@ && forall|j: int|
                0 <= j < k ==> mods@[j].hash@ != h@,
            None => forall|j: int| 0 <= j < mods@.len() ==> mods@[j].hash@ != h@,
        },
{
    let mut i: usize = 0;
    while i < mods.len()
        invariant
            0 <= i <= mods@.len(),
            forall|j: int| 0 <= j < i ==> mods@[j].hash@ != h@,
        decreases mods@.len() - i,
    {
        if mods[i].hash.eq(h) {
            return Some(i);
        }
        i = i + 1;
    }
    None
}

/// The display rows of the lock listing: each lock resolved against the
/// record list, in order, numbered from one. A lock no record carries is
/// skipped; it only means the file was removed by hand.
pub open spec fn spec_lock_rows(locks: Seq<String>, mods: Seq<Anymod>) -> Seq<
    (Option<String>, String),
>
    decreases locks.len(),
{
    if locks.len() == 0 {
        Seq::empty()
    } else {
        let rest = spec_lock_rows(locks.drop_first(), mods);
        match spec_find_by_hash(mods, locks[0]@) {
            Some(i) => seq![(mods[i].title, mods[i].filename)] + rest,
            None => rest,
        }
    }
}

/// Resolves each lock against the known records for display: row `k` holds
/// the number `k + 1`, the record's title and its filename. Locks without a
/// matching record are skipped.
pub fn list_locks(locks: &Vec<String>, mods: &Vec<Anymod>) -> (r: Vec<(usize, Option<String>, String)>)
    ensures
        r@.len() == spec_lock_rows(locks@, mods@).len(),
        forall|k: int|
            0 <= k < r@.len() ==> r@[k].0 == k + 1 && (r@[k].1, r@[k].2)
                == spec_lock_rows(locks@, mods@)[k],
{
    let ghost rows = spec_lock_rows(locks@, mods@);
    let mut out: Vec<(usize, Option<String>, String)> = Vec::new();
    let mut i: usize = 0;
    proof {
        assert(locks@.skip(0) =~= locks@);
        assert(Seq::new(0, |k: int| (out@[k].1, out@[k].2)) =~= Seq::<
            (Option<String>, String),
        >::empty());
    }
    while i < locks.len()
        invariant
            0 <= i <= locks@.len(),
            out@.len() <= i,
            spec_lock_rows(locks@, mods@) =~= Seq::new(out@.len() as nat, |k: int| (out@[k].1, out@[k].2))
                + spec_lock_rows(locks@.skip(i as int), mods@),
            forall|k: int| 0 <= k < out@.len() ==> #[trigger] out@[k].0 == k + 1,
        decreases locks@.len() - i,
    {
        proof {
            assert(locks@.skip(i as int)[0] == locks@[i as int]);
            assert(locks@.skip(i as int).drop_first() =~= locks@.skip(i as int + 1));
        }
        match find_by_hash(mods, &locks[i]) {
            Some(k) => {
                let ghost found = spec_find_by_hash(mods@, locks@[i as int]@);
                proof {
                    assert(found is Some);
                    let fi = found.unwrap();
                    assert(mods@[fi].hash@ == locks@[i as int]@);
                    assert(forall|j: int| 0 <= j < fi ==> mods@[j].hash@ != locks@[i as int]@);
                    if fi < k {
                        assert(mods@[fi].hash@ != locks@[i as int]@);
                    }
                    if k < fi {
                        assert(mods@[k as int].hash@ != locks@[i as int]@);
                    }
                    assert(fi == k);
                }
                let row = (out.len() + 1, clone_title(&mods[k].title), mods[k].filename.clone());
                out.push(row);
                proof {
                    assert(spec_lock_rows(locks@, mods@) =~= Seq::new(
                        out@.len() as nat,
                        |k: int| (out@[k].1, out@[k].2),
                    ) + spec_lock_rows(locks@.skip(i as int + 1), mods@));
                }
            },
            None => {
                proof {
                    assert(spec_find_by_hash(mods@, locks@[i as int]@) is None);
                }
            },
        }
        i = i + 1;
    }
    proof {
        assert(spec_lock_rows(locks@.skip(locks@.len() as int), mods@) =~= Seq::empty());
        assert(spec_lock_rows(locks@, mods@) =~= Seq::new(
            out@.len() as nat,
            |k: int| (out@[k].1, out@[k].2),
        ));
        assert forall|k: int| 0 <= k < out@.len() implies (out@[k].1, out@[k].2) == rows[k] by {
            assert(rows[k] == Seq::new(out@.len() as nat, |k: int| (out@[k].1, out@[k].2))[k]);
        }
    }
    out
}

/// Copies an optional title.
fn clone_title(t: &Option<String>) -> (r: Option<String>)
    ensures
        r == *t,
{
    match t {
        Some(s) => Some(s.clone()),
        None => None,
    }
}

/// The first profile marked active, if any.
pub open spec fn spec_first_active(profiles: Seq<Profile>) -> Option<Profile>
    decreases profiles.len(),
{
    if profiles.len() == 0 {
        None
    } else if profiles[0].active {
        Some(profiles[0])
    } else {
        spec_first_active(profiles.drop_first())
    }
}

/// Extracts the single active profile from the configuration, or reports
/// that none is active.
#[verifier::loop_isolation(false)]
pub fn read_config(config: Config) -> (r: Result<Profile, MfError>)
    ensures
        match spec_first_active(config.profile@) {
            Some(p) => r == Ok::<Profile, MfError>(p),
            None => r == Err::<Profile, MfError>(MfError::NoActiveProfile),
        },
{
    let ghost orig = config.profile@;
    let mut rest = config.profile;
    proof {
        assert(orig.skip(0) =~= orig);
    }
    while rest.len() > 0
        invariant
            rest@.len() <= orig.len(),
            spec_first_active(orig) == spec_first_active(rest@),
        decreases rest@.len(),
    {
        let ghost before = rest@;
        let p = rest.remove(0);
        proof {
            assert(before.remove(0) =~= before.drop_first());
            assert(before[0] == p);
        }
        if p.active {
            return Ok(p);
        }
    }
    Err(MfError::NoActiveProfile)
}

/// Marks exactly the profile carrying `hash` active and all others inactive.
pub fn switch_profile(config: Config, hash: &String) -> (r: Config)
    ensures
        r.profile@.len() == config.profile@.len(),
        forall|i: int|
            0 <= i < r.profile@.len() ==> r.profile@[i] == (Profile {
                active: config.profile@[i].hash@ == hash@,
                ..config.profile@[i]
            }),
{
    let ghost orig = config.profile@;
    let mut rest = config.profile;
    let mut out: Vec<Profile> = Vec::new();
    while rest.len() > 0
        invariant
            out@.len() + rest@.len() == orig.len(),
            orig =~= orig.take(out@.len() as int) + rest@,
            forall|i: int|
                0 <= i < out@.len() ==> out@[i] == (Profile {
                    active: orig[i].hash@ == hash@,
                    ..orig[i]
                }),
        decreases rest@.len(),
    {
        let ghost done = out@.len() as int;
        let ghost before = rest@;
        let p = rest.remove(0);
        proof {
            assert(before.remove(0) =~= before.drop_first());
            assert(orig[done] == p);
        }
        let is_target = p.hash.eq(hash);
        out.push(Profile { active: is_target, ..p });
    }
    proof {
        assert(orig.take(out@.len() as int) =~= orig);
    }
    Config { profile: out }
}

/// Removes the profile carrying `hash` from the configuration.
#[verifier::loop_isolation(false)]
pub fn delete_profile(config: Config, hash: &String) -> (r: Config)
    ensures
        r.profile@ == config.profile@.filter((|p: Profile| p.hash@ != hash@)),
{
    let ghost orig = config.profile@;
    let ghost pred = (|p: Profile| p.hash@ != hash@);
    let mut rest = config.profile;
    let mut out: Vec<Profile> = Vec::new();
    proof {
        reveal(Seq::filter);
        assert(orig.take(0) =~= Seq::<Profile>::empty());
        assert(orig.take(0).filter(pred) =~= Seq::<Profile>::empty());
    }
    while rest.len() > 0
        invariant
            rest@.len() <= orig.len(),
            orig =~= orig.take(orig.len() - rest@.len()) + rest@,
            out@ =~= orig.take(orig.len() - rest@.len()).filter(pred),
        decreases rest@.len(),
    {
        let ghost done = orig.len() - rest@.len();
        let ghost before = rest@;
        let p = rest.remove(0);
        proof {
            reveal(Seq::filter);
            assert(before.remove(0) =~= before.drop_first());
            assert(orig[done] == p);
            assert(orig.take(done + 1) =~= orig.take(done).push(orig[done]));
            assert(orig.take(done + 1).drop_last() =~= orig.take(done));
            if pred(p) {
                assert(orig.take(done + 1).filter(pred) =~= orig.take(done).filter(pred).push(p));
            } else {
                assert(orig.take(done + 1).filter(pred) =~= orig.take(done).filter(pred));
            }
        }
        if !p.hash.eq(hash) {
            out.push(p);
        }
    }
    proof {
        assert(orig.take(orig.len() - 0) =~= orig);
    }
    Config { profile: out }
}

/// Deactivates every existing profile and appends the new one, which becomes
/// the only active profile when it was built active.
pub fn push_profile(config: Config, new_profile: Profile) -> (r: Config)
    ensures
        r.profile@.len() == config.profile@.len() + 1,
        forall|i: int|
            0 <= i < config.profile@.len() ==> r.profile@[i] == (Profile {
                active: false,
                ..config.profile@[i]
            }),
        r.profile@.last() == new_profile,
{
    let ghost orig = config.profile@;
    let mut rest = config.profile;
    let mut out: Vec<Profile> = Vec::new();
    while rest.len() > 0
        invariant
            out@.len() + rest@.len() == orig.len(),
            orig =~= orig.take(out@.len() as int) + rest@,
            forall|i: int|
                0 <= i < out@.len() ==> out@[i] == (Profile { active: false, ..orig[i] }),
        decreases rest@.len(),
    {
        let ghost done = out@.len() as int;
        let ghost before = rest@;
        let p = rest.remove(0);
        proof {
            assert(before.remove(0) =~= before.drop_first());
            assert(orig[done] == p);
        }
        out.push(Profile { active: false, ..p });
    }
    out.push(new_profile);
    Config { profile: out }
}

/// The line a profile listing shows for one profile: an asterisk marks the
/// active one, then the name, the loader with the game version, and the mod
/// directory, with the marker shown bold and underlined.
pub open spec fn spec_profile_label(p: Profile, active: bool) -> Seq<char> {
    "["@ + MFText::Bold.spec_code() + MFText::Underline.spec_code() + (if active {
        "*"@
    } else {
        " "@
    }) + MFText::Reset.spec_code() + "] "@ + p.name@ + " ["@ + p.loader@ + " "@ + p.gameversion@
        + "] ["@ + p.modsfolder@ + "]"@
}

/// Renders one profile's listing line.
pub fn profile_label(p: &Profile) -> (r: String)
    ensures
        r@ == spec_profile_label(*p, p.active),
{
    let mut s = String::from_str("[");
    s.append(MFText::Bold.code());
    s.append(MFText::Underline.code());
    if p.active {
        s.append("*");
    } else {
        s.append(" ");
    }
    s.append(MFText::Reset.code());
    s.append("] ");
    s.append(p.name.as_str());
    s.append(" [");
    s.append(p.loader.as_str());
    s.append(" ");
    s.append(p.gameversion.as_str());
    s.append("] [");
    s.append(p.modsfolder.as_str());
    s.append("]");
    s
}

/// The path of the lock file inside a profile's mod directory.
pub fn get_locks_path(profile: &Profile) -> (r: String)
    ensures
        r@ == profile.modsfolder@ + "/locks.toml"@,
{
    let mut s = profile.modsfolder.clone();
    s.append("/locks.toml");
    s
}

} // verus!
