//! The reconciliation engine: picking the primary file of a version, and
//! computing the upgrade delta between what is installed and what the remote
//! catalog offers.

use vstd::prelude::*;

use crate::structs::{Dependency, File, Hashes, MfError, Object, Search, Version};
use crate::text::{
    contains_str, has_str, lemma_lex_le_refl, lemma_lex_le_total, lemma_lex_le_trans, lex_le,
    str_lex_le,
};
use vstd::multiset::Multiset;

verus! {

/// One resolved artifact: the metadata needed to fetch, display and identify
/// a single mod version. Replaced wholesale, never mutated in place.
#[derive(Clone, Debug, PartialEq, Eq)]
pub struct Anymod {
    pub title: Option<String>,
    pub project_id: String,
    pub version_name: String,
    pub version_id: String,
    pub filename: String,
    pub hash: String,
    pub url: String,
    pub depends: Option<Vec<Dependency>>,
}

/// The first file of `files` marked primary, if any.
pub open spec fn spec_primary(files: Seq<File>) -> Option<File>
    decreases files.len(),
{
    if files.len() == 0 {
        None
    } else if files[0].primary {
        Some(files[0])
    } else {
        spec_primary(files.drop_first())
    }
}

proof fn lemma_spec_primary_step(files: Seq<File>, i: int)
    requires
        0 <= i < files.len(),
    ensures
        spec_primary(files.skip(i)) == if files[i].primary {
            Some(files[i])
        } else {
            spec_primary(files.skip(i + 1))
        },
{
    assert(files.skip(i)[0] == files[i]);
    assert(files.skip(i).drop_first() =~= files.skip(i + 1));
}

/// Returns a copy of the first file marked primary, or reports that none of
/// the files is primary.
pub fn get_primary(files: &Vec<File>) -> (r: Result<File, MfError>)
    ensures
        match r {
            Ok(f) => spec_primary(files@) == Some(f),
            Err(e) => spec_primary(files@) is None && e == MfError::NoPrimaryFile,
        },
{
    proof {
        assert(files@.skip(0) =~= files@);
    }
    let mut i: usize = 0;
    while i < files.len()
        invariant
            0 <= i <= files@.len(),
            spec_primary(files@) == spec_primary(files@.skip(i as int)),
        decreases files@.len() - i,
    {
        proof {
            lemma_spec_primary_step(files@, i as int);
        }
        if files[i].primary {
            let f = &files[i];
            let out = File {
                hashes: Hashes { sha1: f.hashes.sha1.clone() },
                url: f.url.clone(),
                filename: f.filename.clone(),
                primary: f.primary,
            };
            return Ok(out);
        }
        i = i + 1;
    }
    proof {
        assert(files@.skip(i as int).len() == 0);
    }
    Err(MfError::NoPrimaryFile)
}

/// The artifact record derived from version `v` whose primary file is `f`.
/// The title is left empty; it is filled in by a later metadata lookup.
pub open spec fn spec_mod_of(v: Version, f: File) -> Anymod {
    Anymod {
        title: None,
        project_id: v.project_id,
        version_name: v.name,
        version_id: v.id,
        filename: f.filename,
        hash: f.hashes.sha1,
        url: f.url,
        depends: v.dependencies,
    }
}

/// The upgrade delta: for each response entry `(h, v)` in order, keep it when
/// `v` has a primary file, `h` is not locked, and the resolved primary hash is
/// not already on disk; the kept entry pairs the superseded hash `h` with the
/// record to fetch.
pub open spec fn upgrade_pairs(
    resp: Seq<(String, Version)>,
    current: Seq<String>,
    locks: Seq<String>,
) -> Seq<(String, Anymod)>
    decreases resp.len(),
{
    if resp.len() == 0 {
        Seq::empty()
    } else {
        let rest = upgrade_pairs(resp.drop_first(), current, locks);
        let h = resp[0].0;
        let v = resp[0].1;
        match spec_primary(v.files@) {
            Some(f) => if !has_str(locks, h@) && !has_str(current, f.hashes.sha1@) {
                seq![(h, spec_mod_of(v, f))] + rest
            } else {
                rest
            },
            None => rest,
        }
    }
}

/// No hash a computed delta would remove is a locked one.
pub proof fn lemma_upgrade_pairs_locks(
    resp: Seq<(String, Version)>,
    current: Seq<String>,
    locks: Seq<String>,
)
    ensures
        forall|i: int|
            0 <= i < upgrade_pairs(resp, current, locks).len() ==> !has_str(
                locks,
                #[trigger] upgrade_pairs(resp, current, locks)[i].0@,
            ),
    decreases resp.len(),
{
    if resp.len() > 0 {
        lemma_upgrade_pairs_locks(resp.drop_first(), current, locks);
        let rest = upgrade_pairs(resp.drop_first(), current, locks);
        let pairs = upgrade_pairs(resp, current, locks);
        assert forall|i: int| 0 <= i < pairs.len() implies !has_str(
            locks,
            #[trigger] pairs[i].0@,
        ) by {
            match spec_primary(resp[0].1.files@) {
                Some(f) => {
                    if !has_str(locks, resp[0].0@) && !has_str(current, f.hashes.sha1@) {
                        if i > 0 {
                            assert(pairs[i] == rest[i - 1]);
                        }
                    } else {
                        assert(pairs[i] == rest[i]);
                    }
                },
                None => {
                    assert(pairs[i] == rest[i]);
                },
            }
        }
    }
}

/// No record a computed delta would fetch resolves to a hash already on disk.
pub proof fn lemma_upgrade_pairs_changed(
    resp: Seq<(String, Version)>,
    current: Seq<String>,
    locks: Seq<String>,
)
    ensures
        forall|i: int|
            0 <= i < upgrade_pairs(resp, current, locks).len() ==> !has_str(
                current,
                #[trigger] upgrade_pairs(resp, current, locks)[i].1.hash@,
            ),
    decreases resp.len(),
{
    if resp.len() > 0 {
        lemma_upgrade_pairs_changed(resp.drop_first(), current, locks);
    }
}

/// Computes the upgrade delta from the batched remote response.
///
/// `response` maps each currently installed hash the service recognised to
/// the latest compatible version of its project; `current` is the hash set
/// the digest scan produced, and `locks` the hashes pinned against upgrades.
/// The two returned lists form a matched pair: `r.0[i]` is the installed hash
/// superseded by the record `r.1[i]`. An empty response yields the empty
/// pair, which callers report as "all up to date", not as an error; entries
/// without a primary file are skipped rather than failing the batch.
pub fn compute_upgrade(
    response: Vec<(String, Version)>,
    current: &Vec<String>,
    locks: &Vec<String>,
) -> (r: (Vec<String>, Vec<Anymod>))
    ensures
        r.0@.len() == r.1@.len(),
        r.0@.len() == upgrade_pairs(response@, current@, locks@).len(),
        forall|i: int|
            0 <= i < r.0@.len() ==> r.0@[i] == #[trigger] upgrade_pairs(
                response@,
                current@,
                locks@,
            )[i].0 && r.1@[i] == upgrade_pairs(response@, current@, locks@)[i].1,
        response@.len() == 0 ==> r.0@.len() == 0,
        forall|i: int| 0 <= i < r.0@.len() ==> !has_str(locks@, #[trigger] r.0@[i]@),
        forall|i: int| 0 <= i < r.1@.len() ==> !has_str(current@, #[trigger] r.1@[i].hash@),
{
    let ghost orig = response@;
    let mut response = response;
    let mut old_hashes: Vec<String> = Vec::new();
    let mut new_mods: Vec<Anymod> = Vec::new();
    loop
        invariant
            old_hashes@.len() == new_mods@.len(),
            upgrade_pairs(orig, current@, locks@) =~= Seq::new(
                old_hashes@.len(),
                |i: int| (old_hashes@[i], new_mods@[i]),
            ) + upgrade_pairs(response@, current@, locks@),
        ensures
            response@.len() == 0,
            old_hashes@.len() == new_mods@.len(),
            upgrade_pairs(orig, current@, locks@) =~= Seq::new(
                old_hashes@.len(),
                |i: int| (old_hashes@[i], new_mods@[i]),
            ),
        decreases response@.len(),
    {
        if response.len() == 0 {
            break ;
        }
        let ghost before = response@;
        let (h, v) = response.remove(0);
        proof {
            assert(before.remove(0) =~= before.drop_first());
            assert(before[0] == (h, v));
        }
        match get_primary(&v.files) {
            Ok(prim) => {
                if !contains_str(locks, &h) && !contains_str(current, &prim.hashes.sha1) {
                    let Version { name, files: _, dependencies, project_id, id } = v;
                    let m = Anymod {
                        title: None,
                        project_id,
                        version_name: name,
                        version_id: id,
                        filename: prim.filename,
                        hash: prim.hashes.sha1,
                        url: prim.url,
                        depends: dependencies,
                    };
                    old_hashes.push(h);
                    new_mods.push(m);
                }
            },
            Err(_) => {},
        }
    }
    proof {
        let pairs = upgrade_pairs(orig, current@, locks@);
        lemma_upgrade_pairs_locks(orig, current@, locks@);
        lemma_upgrade_pairs_changed(orig, current@, locks@);
        assert forall|i: int| 0 <= i < old_hashes@.len() implies old_hashes@[i] == #[trigger] pairs[i].0
            && new_mods@[i] == pairs[i].1 by {
            assert(pairs[i] == (old_hashes@[i], new_mods@[i]));
        }
        assert forall|i: int| 0 <= i < old_hashes@.len() implies !has_str(
            locks@,
            #[trigger] old_hashes@[i]@,
        ) by {
            assert(!has_str(locks@, pairs[i].0@));
        }
        assert forall|i: int| 0 <= i < new_mods@.len() implies !has_str(
            current@,
            #[trigger] new_mods@[i].hash@,
        ) by {
            assert(!has_str(current@, pairs[i].1.hash@));
        }
    }
    (old_hashes, new_mods)
}

/// Drops from the response every entry whose installed hash is locked.
#[verifier::loop_isolation(false)]
pub fn remove_locked_ones(response: Vec<(String, Version)>, locks: &Vec<String>) -> (r: Vec<
    (String, Version),
>)
    ensures
        r@ == response@.filter((|p: (String, Version)| !has_str(locks@, p.0@))),
{
    let ghost orig = response@;
    let ghost pred = (|p: (String, Version)| !has_str(locks@, p.0@));
    let mut response = response;
    let mut out: Vec<(String, Version)> = Vec::new();
    proof {
        reveal(Seq::filter);
        assert(orig.take(0) =~= Seq::<(String, Version)>::empty());
        assert(orig.take(0).filter(pred) =~= Seq::<(String, Version)>::empty());
    }
    while response.len() > 0
        invariant
            response@.len() <= orig.len(),
            orig =~= orig.take(orig.len() - response@.len()) + response@,
            out@ =~= orig.take(orig.len() - response@.len()).filter(pred),
        decreases response@.len(),
    {
        let ghost done = orig.len() - response@.len();
        let ghost before = response@;
        let p = response.remove(0);
        proof {
            reveal(Seq::filter);
            assert(before.remove(0) =~= before.drop_first());
            assert(orig[done] == p);
            assert(orig.take(done + 1) =~= orig.take(done).push(orig[done]));
            assert(orig.take(done + 1).drop_last() =~= orig.take(done));
            assert(orig.take(done + 1).last() == p);
            if pred(p) {
                assert(orig.take(done + 1).filter(pred) =~= orig.take(done).filter(pred).push(p));
            } else {
                assert(orig.take(done + 1).filter(pred) =~= orig.take(done).filter(pred));
            }
        }
        if !contains_str(locks, &p.0) {
            out.push(p);
        }
    }
    proof {
        assert(orig.take(orig.len() - 0) =~= orig);
    }
    out
}

/// The sort key of a record: the characters of its title, or the empty
/// sequence where no title is known.
pub open spec fn title_key(m: Anymod) -> Seq<char> {
    match m.title {
        Some(t) => t@,
        None => Seq::empty(),
    }
}

/// Is the list ordered by title, in code-point lexicographic order?
pub open spec fn sorted_titles(s: Seq<Anymod>) -> bool {
    forall|i: int, j: int|
        #![trigger title_key(s[i]), title_key(s[j])]
        0 <= i < j < s.len() ==> lex_le(title_key(s[i]), title_key(s[j]))
}

/// Compares two records by title.
fn title_le(a: &Anymod, b: &Anymod) -> (r: bool)
    ensures
        r == lex_le(title_key(*a), title_key(*b)),
{
    match (&a.title, &b.title) {
        (Some(ta), Some(tb)) => str_lex_le(ta.as_str(), tb.as_str()),
        (Some(ta), None) => ta.as_str().is_empty(),
        (None, _) => true,
    }
}

/// Sorts records by title for stable display. The result holds exactly the
/// input records, reordered.
pub fn sort_by_title(mods: Vec<Anymod>) -> (r: Vec<Anymod>)
    ensures
        r@.to_multiset() == mods@.to_multiset(),
        sorted_titles(r@),
{
    broadcast use vstd::seq_lib::group_to_multiset_ensures;
    broadcast use vstd::multiset::group_multiset_axioms;

    let ghost orig = mods@;
    let mut rest = mods;
    let mut out: Vec<Anymod> = Vec::new();
    proof {
        assert(out@.to_multiset().add(rest@.to_multiset()) =~= orig.to_multiset());
    }
    while rest.len() > 0
        invariant
            out@.to_multiset().add(rest@.to_multiset()) == orig.to_multiset(),
            sorted_titles(out@),
            forall|i: int, j: int|
                #![trigger title_key(out@[i]), title_key(rest@[j])]
                0 <= i < out@.len() && 0 <= j < rest@.len() ==> lex_le(
                    title_key(out@[i]),
                    title_key(rest@[j]),
                ),
        decreases rest@.len(),
    {
        let mut best: usize = 0;
        let mut k: usize = 1;
        proof {
            lemma_lex_le_refl(title_key(rest@[0]));
        }
        while k < rest.len()
            invariant
                0 <= best < k <= rest@.len(),
                k >= 1,
                forall|j: int|
                    0 <= j < k ==> lex_le(title_key(rest@[best as int]), #[trigger] title_key(
                        rest@[j],
                    )),
            decreases rest@.len() - k,
        {
            if title_le(&rest[k], &rest[best]) {
                proof {
                    assert forall|j: int| 0 <= j < k + 1 implies lex_le(
                        title_key(rest@[k as int]),
                        #[trigger] title_key(rest@[j]),
                    ) by {
                        if j < k {
                            lemma_lex_le_trans(
                                title_key(rest@[k as int]),
                                title_key(rest@[best as int]),
                                title_key(rest@[j]),
                            );
                        } else {
                            lemma_lex_le_refl(title_key(rest@[k as int]));
                        }
                    }
                }
                best = k;
            } else {
                proof {
                    lemma_lex_le_total(title_key(rest@[k as int]), title_key(rest@[best as int]));
                }
            }
            k = k + 1;
        }
        let ghost before = rest@;
        let x = rest.remove(best);
        proof {
            out@.to_multiset_ensures();
            before.to_multiset_ensures();
            assert(x == before[best as int]);
            assert(before.contains(before[best as int]));
            assert(before.to_multiset().count(x) > 0);
            assert(out@.push(x).to_multiset() =~= out@.to_multiset().insert(x));
            assert(rest@.to_multiset() =~= before.to_multiset().remove(x));
            assert(out@.push(x).to_multiset().add(rest@.to_multiset()) =~= out@.to_multiset().add(
                before.to_multiset(),
            ));
            assert forall|i: int, j: int|
                #![trigger title_key(out@.push(x)[i]), title_key(rest@[j])]
                0 <= i < out@.push(x).len() && 0 <= j < rest@.len() implies lex_le(
                title_key(out@.push(x)[i]),
                title_key(rest@[j]),
            ) by {
                let jj = if j < best { j } else { j + 1 };
                assert(rest@[j] == before[jj]);
                if i < out@.len() {
                    assert(lex_le(title_key(out@[i]), title_key(before[jj])));
                } else {
                    assert(out@.push(x)[i] == x);
                    assert(lex_le(title_key(before[best as int]), title_key(before[jj])));
                }
            }
            assert forall|i: int, j: int|
                #![trigger title_key(out@.push(x)[i]), title_key(out@.push(x)[j])]
                0 <= i < j < out@.push(x).len() implies lex_le(
                title_key(out@.push(x)[i]),
                title_key(out@.push(x)[j]),
            ) by {
                if j < out@.len() {
                    assert(lex_le(title_key(out@[i]), title_key(out@[j])));
                } else {
                    assert(out@.push(x)[j] == x);
                    assert(lex_le(title_key(out@[i]), title_key(before[best as int])));
                }
            }
        }
        out.push(x);
    }
    proof {
        rest@.to_multiset_ensures();
        assert(rest@.to_multiset() =~= Multiset::<Anymod>::empty());
        assert(out@.to_multiset() =~= orig.to_multiset());
    }
    out
}

/// The title of the first project in `projects` whose id is `pid`, if any.
pub open spec fn spec_lookup_title(projects: Seq<Object>, pid: Seq<char>) -> Option<String>
    decreases projects.len(),
{
    if projects.len() == 0 {
        None
    } else if projects[0].project_id@ == pid {
        Some(projects[0].title)
    } else {
        spec_lookup_title(projects.drop_first(), pid)
    }
}

proof fn lemma_spec_lookup_title_step(projects: Seq<Object>, pid: Seq<char>, i: int)
    requires
        0 <= i < projects.len(),
    ensures
        spec_lookup_title(projects.skip(i), pid) == if projects[i].project_id@ == pid {
            Some(projects[i].title)
        } else {
            spec_lookup_title(projects.skip(i + 1), pid)
        },
{
    assert(projects.skip(i)[0] == projects[i]);
    assert(projects.skip(i).drop_first() =~= projects.skip(i + 1));
}

/// `m` with its title replaced by `t`, where the lookup found one.
pub open spec fn spec_with_title(m: Anymod, t: Option<String>) -> Anymod {
    match t {
        Some(s) => Anymod { title: Some(s), ..m },
        None => m,
    }
}

/// Every record of `mods`, its title refreshed from `projects`.
pub open spec fn spec_attach_titles(mods: Seq<Anymod>, projects: Seq<Object>) -> Seq<Anymod> {
    Seq::new(
        mods.len(),
        |i: int| spec_with_title(mods[i], spec_lookup_title(projects, mods[i].project_id@)),
    )
}

/// Finds the title recorded for a project id in a batched metadata response.
fn lookup_title(projects: &Vec<Object>, pid: &String) -> (r: Option<String>)
    ensures
        r == spec_lookup_title(projects@, pid@),
{
    proof {
        assert(projects@.skip(0) =~= projects@);
    }
    let mut i: usize = 0;
    while i < projects.len()
        invariant
            0 <= i <= projects@.len(),
            spec_lookup_title(projects@, pid@) == spec_lookup_title(projects@.skip(i as int), pid@),
        decreases projects@.len() - i,
    {
        proof {
            lemma_spec_lookup_title_step(projects@, pid@, i as int);
        }
        if projects[i].project_id.eq(pid) {
            return Some(projects[i].title.clone());
        }
        i = i + 1;
    }
    proof {
        assert(projects@.skip(i as int).len() == 0);
    }
    None
}

/// Refreshes each record's title from the batched project-metadata response.
/// A record whose project the response does not mention keeps the title it
/// had; the lookup miss is tolerated, not an error.
pub fn attach_titles(mods: Vec<Anymod>, projects: &Vec<Object>) -> (r: Vec<Anymod>)
    ensures
        r@ == spec_attach_titles(mods@, projects@),
{
    let ghost orig = mods@;
    let mut rest = mods;
    let mut out: Vec<Anymod> = Vec::new();
    while rest.len() > 0
        invariant
            rest@.len() <= orig.len(),
            out@.len() + rest@.len() == orig.len(),
            orig =~= orig.take(out@.len() as int) + rest@,
            forall|i: int|
                0 <= i < out@.len() ==> out@[i] == #[trigger] spec_attach_titles(orig, projects@)[i],
        decreases rest@.len(),
    {
        let ghost done = out@.len() as int;
        let ghost before = rest@;
        let p = rest.remove(0);
        proof {
            assert(before.remove(0) =~= before.drop_first());
            assert(orig[done] == p);
        }
        let m = match lookup_title(projects, &p.project_id) {
            Some(t) => Anymod { title: Some(t), ..p },
            None => p,
        };
        out.push(m);
    }
    proof {
        assert(out@ =~= spec_attach_titles(orig, projects@));
    }
    out
}

/// The user-visible inventory: each record's title refreshed from the
/// project-metadata response, the whole list ordered by title.
pub fn list_effective(mods: Vec<Anymod>, projects: &Vec<Object>) -> (r: Vec<Anymod>)
    ensures
        r@.to_multiset() == spec_attach_titles(mods@, projects@).to_multiset(),
        sorted_titles(r@),
{
    let titled = attach_titles(mods, projects);
    sort_by_title(titled)
}

/// Picks the newest version offered for a single project: the first entry of
/// the response. The pick is refused when the response is empty, when the
/// version has no primary file, or when the resolved hash is locked.
pub fn pick_latest(versions: Vec<Version>, locks: &Vec<String>) -> (r: Result<Anymod, MfError>)
    ensures
        versions@.len() == 0 ==> r == Err::<Anymod, MfError>(MfError::NoVersions),
        versions@.len() > 0 ==> match spec_primary(versions@[0].files@) {
            None => r == Err::<Anymod, MfError>(MfError::NoPrimaryFile),
            Some(f) => if has_str(locks@, f.hashes.sha1@) {
                r == Err::<Anymod, MfError>(MfError::ModLocked)
            } else {
                r == Ok::<Anymod, MfError>(spec_mod_of(versions@[0], f))
            },
        },
{
    let mut versions = versions;
    if versions.len() == 0 {
        return Err(MfError::NoVersions);
    }
    let v = versions.remove(0);
    let prim = match get_primary(&v.files) {
        Ok(f) => f,
        Err(e) => {
            return Err(e);
        },
    };
    if contains_str(locks, &prim.hashes.sha1) {
        return Err(MfError::ModLocked);
    }
    let Version { name, files: _, dependencies, project_id, id } = v;
    Ok(
        Anymod {
            title: None,
            project_id,
            version_name: name,
            version_id: id,
            filename: prim.filename,
            hash: prim.hashes.sha1,
            url: prim.url,
            depends: dependencies,
        },
    )
}

/// Re-derives the artifact record of a resolved version, as the snapshot
/// stores it: the version paired with its primary file, title still empty.
pub fn record_from_version(v: Version) -> (r: Result<Anymod, MfError>)
    ensures
        match spec_primary(v.files@) {
            None => r == Err::<Anymod, MfError>(MfError::NoPrimaryFile),
            Some(f) => r == Ok::<Anymod, MfError>(spec_mod_of(v, f)),
        },
{
    let prim = match get_primary(&v.files) {
        Ok(f) => f,
        Err(e) => {
            return Err(e);
        },
    };
    let Version { name, files: _, dependencies, project_id, id } = v;
    Ok(
        Anymod {
            title: None,
            project_id,
            version_name: name,
            version_id: id,
            filename: prim.filename,
            hash: prim.hashes.sha1,
            url: prim.url,
            depends: dependencies,
        },
    )
}

/// Fills in the display title of a record once a metadata lookup supplied it.
pub fn set_title(m: Anymod, title: String) -> (r: Anymod)
    ensures
        r == (Anymod { title: Some(title), ..m }),
{
    Anymod { title: Some(title), ..m }
}

/// The records derived from a project's version list: each version paired
/// with its primary file, all titled `title` and owned by project `pid`.
/// `None` marks a version without a primary file.
pub open spec fn spec_release_mods(versions: Seq<Version>, title: String, pid: String) -> Option<
    Seq<Anymod>,
>
    decreases versions.len(),
{
    if versions.len() == 0 {
        Some(Seq::empty())
    } else {
        match spec_primary(versions[0].files@) {
            None => None,
            Some(f) => match spec_release_mods(versions.drop_first(), title, pid) {
                None => None,
                Some(rest) => Some(
                    seq![
                        Anymod {
                            title: Some(title),
                            project_id: pid,
                            version_name: versions[0].name,
                            version_id: versions[0].id,
                            filename: f.filename,
                            hash: f.hashes.sha1,
                            url: f.url,
                            depends: versions[0].dependencies,
                        },
                    ] + rest,
                ),
            },
        }
    }
}

/// Turns a project's version list into displayable records, all carrying the
/// project's title and id. A version without a primary file fails the whole
/// listing, as there is nothing to offer for it.
#[verifier::loop_isolation(false)]
pub fn mods_from_versions(versions: Vec<Version>, title: &String) -> (r: Result<
    Vec<Anymod>,
    MfError,
>)
    requires
        versions@.len() > 0,
    ensures
        match r {
            Ok(v) => spec_release_mods(versions@, *title, versions@[0].project_id) == Some(v@),
            Err(e) => spec_release_mods(versions@, *title, versions@[0].project_id) is None && e
                == MfError::NoPrimaryFile,
        },
{
    let ghost orig = versions@;
    let ghost pid0 = versions@[0].project_id;
    let project_id = versions[0].project_id.clone();
    let mut rest = versions;
    let mut out: Vec<Anymod> = Vec::new();
    while rest.len() > 0
        invariant
            project_id == pid0,
            spec_release_mods(orig, *title, pid0) == (match spec_release_mods(
                rest@,
                *title,
                pid0,
            ) {
                None => None::<Seq<Anymod>>,
                Some(s) => Some(out@ + s),
            }),
        decreases rest@.len(),
    {
        let ghost before = rest@;
        let v = rest.remove(0);
        proof {
            assert(before.remove(0) =~= before.drop_first());
            assert(before[0] == v);
        }
        let prim = match get_primary(&v.files) {
            Ok(f) => f,
            Err(_) => {
                return Err(MfError::NoPrimaryFile);
            },
        };
        let Version { name, files: _, dependencies, project_id: _, id } = v;
        let m = Anymod {
            title: Some(title.clone()),
            project_id: project_id.clone(),
            version_name: name,
            version_id: id,
            filename: prim.filename,
            hash: prim.hashes.sha1,
            url: prim.url,
            depends: dependencies,
        };
        proof {
            match spec_release_mods(before, *title, pid0) {
                None => {},
                Some(s) => {
                    assert(s.len() > 0 && s[0] == m);
                    assert(out@ + s =~= (out@.push(m)) + s.drop_first());
                },
            }
        }
        out.push(m);
    }
    proof {
        assert(spec_release_mods(rest@, *title, pid0) == Some(Seq::<Anymod>::empty()));
        match spec_release_mods(orig, *title, pid0) {
            None => {},
            Some(s) => {
                assert(out@ + Seq::<Anymod>::empty() =~= out@);
            },
        }
    }
    Ok(out)
}

/// Flags, for each candidate project id, whether a version of that project is
/// already installed; a flagged candidate is skipped with a warning rather
/// than installed twice.
pub fn compute_duplicate_check(candidates: &Vec<String>, installed: &Vec<String>) -> (r: Vec<bool>)
    ensures
        r@.len() == candidates@.len(),
        forall|i: int|
            0 <= i < r@.len() ==> r@[i] == has_str(installed@, #[trigger] candidates@[i]@),
{
    let mut out: Vec<bool> = Vec::new();
    let mut i: usize = 0;
    while i < candidates.len()
        invariant
            0 <= i <= candidates@.len(),
            out@.len() == i,
            forall|k: int|
                0 <= k < i ==> out@[k] == has_str(installed@, #[trigger] candidates@[k]@),
        decreases candidates@.len() - i,
    {
        out.push(contains_str(installed, &candidates[i]));
        i = i + 1;
    }
    out
}

/// Refuses re-installing the version that is already installed.
pub fn check_edit_selection(selected: &Anymod, installed: &Anymod) -> (r: Result<(), MfError>)
    ensures
        r is Ok <==> selected.version_id@ != installed.version_id@,
        r is Err ==> r == Err::<(), MfError>(MfError::AlreadyInstalled),
{
    if selected.version_id.eq(&installed.version_id) {
        Err(MfError::AlreadyInstalled)
    } else {
        Ok(())
    }
}

/// Pairs each dependency's looked-up title with its kind, for display:
/// row `i` reads `(titles[i], deps[i].dependency_type)`.
pub fn dependency_rows(titles: Vec<String>, deps: &Vec<Dependency>) -> (r: Vec<(String, String)>)
    requires
        titles@.len() == deps@.len(),
    ensures
        r@.len() == deps@.len(),
        forall|i: int|
            0 <= i < r@.len() ==> #[trigger] r@[i] == (titles@[i], deps@[i].dependency_type),
{
    let ghost orig = titles@;
    let mut titles = titles;
    let mut out: Vec<(String, String)> = Vec::new();
    let mut i: usize = 0;
    while i < deps.len()
        invariant
            0 <= i <= deps@.len(),
            orig.len() == deps@.len(),
            out@.len() == i,
            titles@ =~= orig.skip(i as int),
            forall|k: int|
                0 <= k < i ==> #[trigger] out@[k] == (orig[k], deps@[k].dependency_type),
        decreases deps@.len() - i,
    {
        let ghost before = titles@;
        let t = titles.remove(0);
        proof {
            assert(before.remove(0) =~= before.drop_first());
            assert(t == orig[i as int]);
            assert(before.drop_first() =~= orig.skip(i as int + 1));
        }
        out.push((t, deps[i].dependency_type.clone()));
        i = i + 1;
    }
    out
}

/// The menu line for one version on the edit screen: the installed one is
/// marked as such.
pub fn version_label(version: &Anymod, installed_version_id: &String) -> (r: String)
    ensures
        version.version_id@ == installed_version_id@ ==> r@ == version.version_name@
            + " (Installed)"@,
        version.version_id@ != installed_version_id@ ==> r@ == version.version_name@,
{
    let mut s = version.version_name.clone();
    if version.version_id.eq(installed_version_id) {
        s.append(" (Installed)");
    }
    s
}

/// Passes a search response through, turning an empty hit list into the
/// distinct "no hits" condition.
pub fn require_hits(search: Search) -> (r: Result<Vec<Object>, MfError>)
    ensures
        search.hits@.len() == 0 ==> r == Err::<Vec<Object>, MfError>(MfError::NoHits),
        search.hits@.len() > 0 ==> r == Ok::<Vec<Object>, MfError>(search.hits),
{
    if search.hits.len() == 0 {
        Err(MfError::NoHits)
    } else {
        Ok(search.hits)
    }
}

} // verus!
