//! The digest scanner core and the executor's hash-addressed delete step.
//!
//! Files reach this module as plain values: a name and the bytes read from
//! disk. Hashing itself goes through the SHA-1 implementation of the `sha1`
//! crate; everything around it — hex rendering, eligibility, the selection of
//! files to delete — is verified.

use vstd::prelude::*;

use crate::structs::MfError;
use crate::text::{contains_str, has_str, str_set};

use rand::distr::SampleString;
use sha1::Digest;

verus! {

/// The SHA-1 digest of a byte sequence. The digest is a fixed public
/// function of the bytes alone; its definition lives in the `sha1` crate and
/// is not restated here.
pub uninterp spec fn sha1_of(data: Seq<u8>) -> Seq<u8>;

/// Relies on sha1::Sha1 through digest::Digest::digest: the SHA-1 digest
/// depends on the input bytes alone and is 20 bytes long.
#[verifier::external_body]
fn sha1_digest(data: &Vec<u8>) -> (r: Vec<u8>)
    ensures
        r@ == sha1_of(data@),
        r@.len() == 20,
{
    sha1::Sha1::digest(data.as_slice()).to_vec()
}

/// The lower-case hex digit for a value below 16.
pub open spec fn hex_digit(n: u8) -> char {
    if n < 10 {
        ((n + 48) as u8) as char
    } else {
        ((n + 87) as u8) as char
    }
}

/// A byte sequence rendered as lower-case hex, two digits per byte.
pub open spec fn hex_of(bytes: Seq<u8>) -> Seq<char>
    decreases bytes.len(),
{
    if bytes.len() == 0 {
        Seq::empty()
    } else {
        seq![hex_digit(bytes[0] / 16), hex_digit(bytes[0] % 16)] + hex_of(bytes.drop_first())
    }
}

/// The content hash in its on-the-wire form: the SHA-1 digest, hex encoded.
pub open spec fn sha1_hex_of(data: Seq<u8>) -> Seq<char> {
    hex_of(sha1_of(data))
}

/// The one-character string for a hex digit value.
fn hex_str(n: u8) -> (r: &'static str)
    requires
        n < 16,
    ensures
        r@ == seq![hex_digit(n)],
{
    proof {
        reveal_strlit("0");
        reveal_strlit("1");
        reveal_strlit("2");
        reveal_strlit("3");
        reveal_strlit("4");
        reveal_strlit("5");
        reveal_strlit("6");
        reveal_strlit("7");
        reveal_strlit("8");
        reveal_strlit("9");
        reveal_strlit("a");
        reveal_strlit("b");
        reveal_strlit("c");
        reveal_strlit("d");
        reveal_strlit("e");
        reveal_strlit("f");
    }
    match n {
        0 => "0",
        1 => "1",
        2 => "2",
        3 => "3",
        4 => "4",
        5 => "5",
        6 => "6",
        7 => "7",
        8 => "8",
        9 => "9",
        10 => "a",
        11 => "b",
        12 => "c",
        13 => "d",
        14 => "e",
        _ => "f",
    }
}

/// Appending a byte extends the hex rendering by its two digits.
proof fn lemma_hex_of_push(s: Seq<u8>, x: u8)
    ensures
        hex_of(s.push(x)) == hex_of(s) + seq![hex_digit(x / 16), hex_digit(x % 16)],
    decreases s.len(),
{
    if s.len() == 0 {
        assert(s.push(x).drop_first() =~= s);
        assert(hex_of(s.push(x)) == seq![hex_digit(x / 16), hex_digit(x % 16)] + hex_of(
            s.push(x).drop_first(),
        ));
        assert(hex_of(s) =~= Seq::<char>::empty());
        assert(hex_of(s.push(x)) =~= hex_of(s) + seq![hex_digit(x / 16), hex_digit(x % 16)]);
    } else {
        lemma_hex_of_push(s.drop_first(), x);
        assert(s.push(x).drop_first() =~= s.drop_first().push(x));
        assert(hex_of(s.push(x).drop_first()) == hex_of(s.drop_first()) + seq![
            hex_digit(x / 16),
            hex_digit(x % 16),
        ]);
        assert(s.push(x)[0] == s[0]);
        assert(hex_of(s.push(x)) == seq![hex_digit(s[0] / 16), hex_digit(s[0] % 16)] + hex_of(
            s.push(x).drop_first(),
        ));
        assert(hex_of(s) == seq![hex_digit(s[0] / 16), hex_digit(s[0] % 16)] + hex_of(
            s.drop_first(),
        ));
        assert(hex_of(s.push(x)) =~= hex_of(s) + seq![hex_digit(x / 16), hex_digit(x % 16)]);
    }
}

/// Renders bytes as lower-case hex, two digits per byte.
pub fn to_hex_lower(bytes: &Vec<u8>) -> (r: String)
    ensures
        r@ == hex_of(bytes@),
{
    let mut s = String::new();
    let mut i: usize = 0;
    proof {
        assert(bytes@.take(0) =~= Seq::<u8>::empty());
    }
    while i < bytes.len()
        invariant
            0 <= i <= bytes@.len(),
            s@ == hex_of(bytes@.take(i as int)),
        decreases bytes@.len() - i,
    {
        let b = bytes[i];
        s.append(hex_str(b / 16));
        s.append(hex_str(b % 16));
        proof {
            lemma_hex_of_push(bytes@.take(i as int), b);
            assert(bytes@.take(i + 1) =~= bytes@.take(i as int).push(b));
            assert(s@ =~= hex_of(bytes@.take(i + 1)));
        }
        i = i + 1;
    }
    proof {
        assert(bytes@.take(bytes@.len() as int) =~= bytes@);
    }
    s
}

/// The content hash of a file's bytes: its SHA-1 digest in lower-case hex.
/// This is the sole identity of an artifact; it depends on the bytes alone,
/// never on the file's name.
pub fn content_hash(data: &Vec<u8>) -> (r: String)
    ensures
        r@ == sha1_hex_of(data@),
{
    let digest = sha1_digest(data);
    to_hex_lower(&digest)
}

/// One file handed to the scanner: its name and the bytes read from it.
#[derive(Clone, Debug, PartialEq, Eq)]
pub struct ScanFile {
    pub name: String,
    pub data: Vec<u8>,
}

/// Is the file eligible for scanning? Only mod archives are: a name that
/// carries the `.jar` extension after a non-empty stem.
pub open spec fn spec_is_jar(name: Seq<char>) -> bool {
    name.len() >= 5 && name[name.len() - 4] == '.' && name[name.len() - 3] == 'j' && name[name.len()
        - 2] == 'a' && name[name.len() - 1] == 'r'
}

/// Checks the `.jar` eligibility of a file name.
pub fn has_jar_extension(name: &str) -> (r: bool)
    ensures
        r == spec_is_jar(name@),
{
    let len = name.unicode_len();
    if len < 5 {
        return false;
    }
    name.get_char(len - 4) == '.' && name.get_char(len - 3) == 'j' && name.get_char(len - 2) == 'a'
        && name.get_char(len - 1) == 'r'
}

/// The eligible files of a scan pass, in order.
pub open spec fn spec_eligible(files: Seq<ScanFile>) -> Seq<ScanFile> {
    files.filter(|f: ScanFile| spec_is_jar(f.name@))
}

/// What a scan of `files` yields: the content hash of every eligible file.
pub open spec fn spec_scan(files: Seq<ScanFile>) -> Seq<Seq<char>> {
    Seq::new(spec_eligible(files).len(), |i: int| sha1_hex_of(spec_eligible(files)[i].data@))
}

/// Hashes every eligible file of a scan pass. An input with no eligible file
/// yields the distinct "no mods yet" condition, not an error.
#[verifier::loop_isolation(false)]
pub fn scan_hashes(files: &Vec<ScanFile>) -> (r: Result<Vec<String>, MfError>)
    ensures
        match r {
            Ok(v) => v@.len() == spec_scan(files@).len() && v@.len() > 0 && forall|i: int|
                0 <= i < v@.len() ==> v@[i]@ == spec_scan(files@)[i],
            Err(e) => spec_scan(files@).len() == 0 && e == MfError::NoModsYet,
        },
{
    let ghost pred = (|f: ScanFile| spec_is_jar(f.name@));
    let mut out: Vec<String> = Vec::new();
    let mut i: usize = 0;
    proof {
        reveal(Seq::filter);
        assert(files@.take(0) =~= Seq::<ScanFile>::empty());
        assert(files@.take(0).filter(pred) =~= Seq::<ScanFile>::empty());
    }
    while i < files.len()
        invariant
            0 <= i <= files@.len(),
            out@.len() == files@.take(i as int).filter(pred).len(),
            forall|k: int|
                0 <= k < out@.len() ==> out@[k]@ == sha1_hex_of(
                    #[trigger] files@.take(i as int).filter(pred)[k].data@,
                ),
        decreases files@.len() - i,
    {
        proof {
            reveal(Seq::filter);
            assert(files@.take(i + 1).drop_last() =~= files@.take(i as int));
            assert(files@.take(i + 1).last() == files@[i as int]);
            if pred(files@[i as int]) {
                assert(files@.take(i + 1).filter(pred) =~= files@.take(i as int).filter(pred).push(
                    files@[i as int],
                ));
            } else {
                assert(files@.take(i + 1).filter(pred) =~= files@.take(i as int).filter(pred));
            }
        }
        if has_jar_extension(files[i].name.as_str()) {
            out.push(content_hash(&files[i].data));
        }
        i = i + 1;
    }
    proof {
        assert(files@.take(files@.len() as int) =~= files@);
    }
    if out.len() == 0 {
        Err(MfError::NoModsYet)
    } else {
        Ok(out)
    }
}

/// Two scan passes over pointwise identical bytes and eligibility yield the
/// same hashes: the scan is invariant under renames that keep the `.jar`
/// extension, and its result can change only where some file's bytes (or its
/// eligibility) changed.
pub proof fn lemma_scan_rename_invariant(a: Seq<ScanFile>, b: Seq<ScanFile>)
    requires
        a.len() == b.len(),
        forall|i: int|
            0 <= i < a.len() ==> (#[trigger] a[i].data)@ == b[i].data@ && (spec_is_jar(a[i].name@)
                <==> spec_is_jar(b[i].name@)),
    ensures
        spec_scan(a) == spec_scan(b),
    decreases a.len(),
{
    reveal(Seq::filter);
    let pa = (|f: ScanFile| spec_is_jar(f.name@));
    if a.len() == 0 {
        assert(spec_scan(a) =~= spec_scan(b));
    } else {
        assert forall|i: int| 0 <= i < a.drop_last().len() implies (#[trigger] a.drop_last()[i].data)@
            == b.drop_last()[i].data@ && (spec_is_jar(a.drop_last()[i].name@) <==> spec_is_jar(
            b.drop_last()[i].name@,
        )) by {
            assert(a.drop_last()[i] == a[i]);
            assert(b.drop_last()[i] == b[i]);
            assert((a[i].data)@ == b[i].data@);
        }
        lemma_scan_rename_invariant(a.drop_last(), b.drop_last());
        assert(a.last() == a[a.len() - 1] && b.last() == b[a.len() - 1]);
        assert((a[a.len() - 1].data)@ == b[a.len() - 1].data@);
        assert(spec_eligible(a) == if pa(a.last()) {
            spec_eligible(a.drop_last()).push(a.last())
        } else {
            spec_eligible(a.drop_last())
        });
        assert(spec_eligible(b) == if pa(b.last()) {
            spec_eligible(b.drop_last()).push(b.last())
        } else {
            spec_eligible(b.drop_last())
        });
        if pa(a.last()) {
            assert(spec_scan(a) =~= spec_scan(a.drop_last()).push(sha1_hex_of(a.last().data@)));
            assert(spec_scan(b) =~= spec_scan(b.drop_last()).push(sha1_hex_of(b.last().data@)));
        } else {
            assert(spec_scan(a) =~= spec_scan(a.drop_last()));
            assert(spec_scan(b) =~= spec_scan(b.drop_last()));
        }
        assert(spec_scan(a) =~= spec_scan(b));
    }
}

/// One file seen by the delete step: where it lies and what its bytes hash
/// to.
#[derive(Clone, Debug, PartialEq, Eq)]
pub struct ScanEntry {
    pub path: String,
    pub hash: String,
}

/// The set of hashes a list of scanned files carries.
pub open spec fn entry_hash_set(entries: Seq<ScanEntry>) -> Set<Seq<char>> {
    Set::new(|x: Seq<char>| exists|i: int| 0 <= i < entries.len() && entries[i].hash@ == x)
}

/// Splits the scanned directory into the files to delete — those whose
/// content hash is a superseded one — and the files to keep. Files are
/// identified by hash, never by name: a renamed file is still found, and a
/// name collision deletes nothing that should stay.
#[verifier::loop_isolation(false)]
pub fn select_deletions(entries: Vec<ScanEntry>, old_hashes: &Vec<String>) -> (r: (
    Vec<ScanEntry>,
    Vec<ScanEntry>,
))
    ensures
        r.0@ == entries@.filter((|e: ScanEntry| has_str(old_hashes@, e.hash@))),
        r.1@ == entries@.filter((|e: ScanEntry| !has_str(old_hashes@, e.hash@))),
{
    let ghost orig = entries@;
    let ghost p_del = (|e: ScanEntry| has_str(old_hashes@, e.hash@));
    let ghost p_keep = (|e: ScanEntry| !has_str(old_hashes@, e.hash@));
    let mut rest = entries;
    let mut del: Vec<ScanEntry> = Vec::new();
    let mut keep: Vec<ScanEntry> = Vec::new();
    proof {
        reveal(Seq::filter);
        assert(orig.take(0) =~= Seq::<ScanEntry>::empty());
        assert(orig.take(0).filter(p_del) =~= Seq::<ScanEntry>::empty());
        assert(orig.take(0).filter(p_keep) =~= Seq::<ScanEntry>::empty());
    }
    while rest.len() > 0
        invariant
            rest@.len() <= orig.len(),
            orig =~= orig.take(orig.len() - rest@.len()) + rest@,
            del@ =~= orig.take(orig.len() - rest@.len()).filter(p_del),
            keep@ =~= orig.take(orig.len() - rest@.len()).filter(p_keep),
        decreases rest@.len(),
    {
        let ghost done = orig.len() - rest@.len();
        let ghost before = rest@;
        let e = rest.remove(0);
        proof {
            reveal(Seq::filter);
            assert(before.remove(0) =~= before.drop_first());
            assert(orig[done] == e);
            assert(orig.take(done + 1) =~= orig.take(done).push(orig[done]));
            assert(orig.take(done + 1).drop_last() =~= orig.take(done));
            if p_del(e) {
                assert(orig.take(done + 1).filter(p_del) =~= orig.take(done).filter(p_del).push(e));
                assert(orig.take(done + 1).filter(p_keep) =~= orig.take(done).filter(p_keep));
            } else {
                assert(orig.take(done + 1).filter(p_del) =~= orig.take(done).filter(p_del));
                assert(orig.take(done + 1).filter(p_keep) =~= orig.take(done).filter(p_keep).push(
                    e,
                ));
            }
        }
        if contains_str(old_hashes, &e.hash) {
            del.push(e);
        } else {
            keep.push(e);
        }
    }
    proof {
        assert(orig.take(orig.len() - 0) =~= orig);
    }
    (del, keep)
}

/// What a fresh scan sees after a replace batch: the files the delete step
/// kept, together with the fetched records, carry exactly
/// `(prior − oldHashes) ∪ fetched`. `fetched` holds only the downloads that
/// succeeded; the hashes in `oldHashes` are removed regardless, by deliberate
/// policy — a failed item leaves a gap that the next upgrade retries.
pub proof fn lemma_replace_hash_set(
    entries: Seq<ScanEntry>,
    old_hashes: Seq<String>,
    fetched: Set<Seq<char>>,
)
    ensures
        entry_hash_set(entries.filter((|e: ScanEntry| !has_str(old_hashes, e.hash@)))).union(
            fetched,
        ) == entry_hash_set(entries).difference(str_set(old_hashes)).union(fetched),
{
    broadcast use vstd::seq_lib::group_filter_ensures;

    let p_keep = (|e: ScanEntry| !has_str(old_hashes, e.hash@));
    let kept = entries.filter(p_keep);
    assert forall|x: Seq<char>| #[trigger]
        entry_hash_set(kept).contains(x) implies entry_hash_set(entries).difference(
        str_set(old_hashes),
    ).contains(x) by {
        let i = choose|i: int| 0 <= i < kept.len() && kept[i].hash@ == x;
        assert(p_keep(kept[i]));
        assert(kept.contains(kept[i]));
        entries.lemma_filter_contains_rev(p_keep, kept[i]);
        let j = choose|j: int| 0 <= j < entries.len() && entries[j] == kept[i];
        assert(entries[j].hash@ == x);
    }
    assert forall|x: Seq<char>|
        entry_hash_set(entries).difference(str_set(old_hashes)).contains(x) implies #[trigger]
        entry_hash_set(kept).contains(x) by {
        let i = choose|i: int| 0 <= i < entries.len() && entries[i].hash@ == x;
        assert(p_keep(entries[i]));
        assert(kept.contains(entries[i]));
        let j = choose|j: int| 0 <= j < kept.len() && kept[j] == entries[i];
        assert(kept[j].hash@ == x);
    }
    assert(entry_hash_set(kept).union(fetched) =~= entry_hash_set(entries).difference(
        str_set(old_hashes),
    ).union(fetched));
}

/// Is a character one of `A`–`Z`, `a`–`z`, `0`–`9`?
pub open spec fn is_alnum(c: char) -> bool {
    (48 <= c as u32 && c as u32 <= 57) || (65 <= c as u32 && c as u32 <= 90) || (97 <= c as u32
        && c as u32 <= 122)
}

/// Relies on rand's Alphanumeric distribution through sample_string: the
/// result holds exactly 64 characters drawn from A–Z, a–z and 0–9. Nothing
/// else is assumed of a random value.
#[verifier::external_body]
pub fn generate_hash() -> (r: String)
    ensures
        r@.len() == 64,
        forall|i: int| 0 <= i < r@.len() ==> is_alnum(#[trigger] r@[i]),
{
    rand::distr::Alphanumeric.sample_string(&mut rand::rng(), 64)
}

/// The configuration directory under the user's home directory.
pub fn get_confdir(home: &String) -> (r: String)
    ensures
        r@ == home@ + "/.config/minefetch"@,
{
    let mut s = home.clone();
    s.append("/.config/minefetch");
    s
}

/// The configuration file under the user's home directory.
pub fn get_confpath(home: &String) -> (r: String)
    ensures
        r@ == home@ + "/.config/minefetch/config.toml"@,
{
    let mut s = home.clone();
    s.append("/.config/minefetch/config.toml");
    s
}

} // verus!
