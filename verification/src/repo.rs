//! Signed repository management: the package index, its entries and
//! groups, signature classification, and the public-key resolver.

use vstd::prelude::*;
use crate::errs::RookError;
use crate::text::{
    chars_eq, chars_to_string, ends_with_chars, ends_with_spec, hex_of, lemma_hex_len, seq_sorted,
    sort_strings, str_to_chars, to_hex,
};

verus! {

/// The SHA-256 digest of a byte string; computed by an outside crate and
/// named here, since it is a function of the bytes alone.
pub uninterp spec fn sha256_of(b: Seq<u8>) -> Seq<u8>;

/// Relies on sha2's `Sha256::digest`: the 32-byte digest of the input,
/// a function of the input bytes alone.
#[verifier::external_body]
fn sha256_digest(bytes: &[u8]) -> (r: Vec<u8>)
    ensures
        r@ == sha256_of(bytes@),
        r@.len() == 32,
{
    let d = <sha2::Sha256 as sha2::Digest>::digest(bytes);
    d.as_slice().to_vec()
}

/// The SHA-256 digest of `data`, in lower-case hexadecimal.
pub fn compute_sha256(data: &[u8]) -> (r: String)
    ensures
        r@ == hex_of(sha256_of(data@)),
        r@.len() == 64,
{
    let d = sha256_digest(data);
    proof {
        lemma_hex_len(d@);
    }
    let h = to_hex(d.as_slice());
    chars_to_string(h.as_slice())
}

/// Whether the calendar can represent `secs` as a UTC timestamp; decided
/// by the outside crate and named here, a property of the seconds alone.
pub uninterp spec fn utc_representable(secs: i64) -> bool;

/// Relies on chrono's `DateTime::from_timestamp`: a pure function of the
/// seconds that returns `Some` exactly on the calendar's representable
/// range, and whose result round-trips through `timestamp()`, so the
/// seconds carried out equal the seconds put in.
#[verifier::external_body]
fn utc_seconds_checked(secs: i64) -> (r: Option<i64>)
    ensures
        r is Some <==> utc_representable(secs),
        r matches Some(t) ==> t == secs,
{
    match chrono::DateTime::from_timestamp(secs, 0) {
        Some(dt) => Some(dt.timestamp()),
        None => None,
    }
}

/// Whether two key fingerprints are treated as the same key: equal, or one
/// the suffix of the other, so long and short forms interoperate.
pub open spec fn fingerprint_matches_spec(a: Seq<char>, b: Seq<char>) -> bool {
    a == b || ends_with_spec(a, b) || ends_with_spec(b, a)
}

/// Whether two fingerprints match.
pub fn fingerprint_matches(a: &str, b: &str) -> (r: bool)
    ensures
        r == fingerprint_matches_spec(a@, b@),
{
    let ac = str_to_chars(a);
    let bc = str_to_chars(b);
    if chars_eq(ac.as_slice(), bc.as_slice()) {
        return true;
    }
    if ends_with_chars(ac.as_slice(), bc.as_slice()) {
        return true;
    }
    ends_with_chars(bc.as_slice(), ac.as_slice())
}

/// Fingerprints of which one ends with the other always match: the
/// resolver accepts a short form against its long form and conversely.
pub proof fn lemma_key_suffix_matching(f: Seq<char>, g: Seq<char>)
    requires
        ends_with_spec(f, g) || ends_with_spec(g, f),
    ensures
        fingerprint_matches_spec(f, g),
        fingerprint_matches_spec(g, f),
{
}

/// A public key loaded from disk, with its owner and fingerprint.
pub struct PublicKeyRecord {
    /// The key owner's name.
    pub name: String,
    /// The key owner's mail address.
    pub email: String,
    /// The key's fingerprint, long or short form.
    pub fingerprint: String,
    /// The key material.
    pub key_data: Vec<u8>,
}

/// The fingerprints of a key list.
pub open spec fn key_fingerprints(ks: Seq<PublicKeyRecord>) -> Seq<Seq<char>> {
    ks.map_values(|k: PublicKeyRecord| k.fingerprint@)
}

/// Finds the first key whose fingerprint matches, searching the list in
/// order; the caller hands the keys in directory search order.
pub fn find_matching_key(keys: &Vec<PublicKeyRecord>, fingerprint: &str) -> (r: Option<usize>)
    ensures
        match r {
            Some(i) => i < keys@.len() && fingerprint_matches_spec(
                keys@[i as int].fingerprint@,
                fingerprint@,
            ) && (forall|j: int|
                0 <= j < i ==> !fingerprint_matches_spec(keys@[j].fingerprint@, fingerprint@)),
            None => forall|j: int|
                0 <= j < keys@.len() ==> !fingerprint_matches_spec(
                    keys@[j].fingerprint@,
                    fingerprint@,
                ),
        },
{
    let n: usize = keys.len();
    let mut i: usize = 0;
    while i < n
        invariant
            n == keys@.len(),
            i <= n,
            forall|j: int| 0 <= j < i ==> !fingerprint_matches_spec(
                keys@[j].fingerprint@,
                fingerprint@,
            ),
        decreases n - i,
    {
        if fingerprint_matches(keys[i].fingerprint.as_str(), fingerprint) {
            return Some(i);
        }
        i = i + 1;
    }
    None
}

/// How an archive's signature stands after a refresh looked at it.
#[derive(Clone, Copy, Debug, PartialEq, Eq, Structural)]
pub enum SigStatus {
    /// A signature file was present and verified.
    Signed,
    /// No signature file was present.
    Unsigned,
    /// A signature file was present but did not verify.
    Invalid,
}

/// Classifies one archive's signature from what the verifier said.
pub fn classify_signature(has_signature: bool, verified: bool) -> (r: SigStatus)
    ensures
        r == (if !has_signature {
            SigStatus::Unsigned
        } else if verified {
            SigStatus::Signed
        } else {
            SigStatus::Invalid
        }),
{
    if !has_signature {
        SigStatus::Unsigned
    } else if verified {
        SigStatus::Signed
    } else {
        SigStatus::Invalid
    }
}

/// The metadata an archive carries about its package, as plain values.
pub struct PackageInfo {
    /// Package name.
    pub name: String,
    /// Package version.
    pub version: String,
    /// Package release number.
    pub release: u32,
    /// One-line description.
    pub description: String,
    /// Architecture.
    pub arch: String,
    /// License, empty when unknown.
    pub license: String,
    /// Upstream URL, empty when unknown.
    pub url: String,
    /// Maintainer, empty when unknown.
    pub maintainer: String,
    /// Runtime dependencies: name and constraint.
    pub depends: Vec<(String, String)>,
    /// Build dependencies: name and constraint.
    pub build_depends: Vec<(String, String)>,
    /// Build time as unix seconds.
    pub build_time: i64,
}

/// One indexed package.
pub struct PackageEntry {
    /// Package name.
    pub name: String,
    /// Package version.
    pub version: String,
    /// Package release number.
    pub release: u32,
    /// One-line description.
    pub description: String,
    /// Architecture.
    pub arch: String,
    /// Archive size in bytes.
    pub size: u64,
    /// SHA-256 of the archive, in hexadecimal.
    pub sha256: String,
    /// Path of the archive relative to the repository root.
    pub filename: String,
    /// Runtime dependency names, sorted.
    pub depends: Vec<String>,
    /// Build dependency names, sorted.
    pub build_depends: Vec<String>,
    /// Packages this provides.
    pub provides: Vec<String>,
    /// Packages this conflicts with.
    pub conflicts: Vec<String>,
    /// Packages this replaces.
    pub replaces: Vec<String>,
    /// License, when known.
    pub license: Option<String>,
    /// Upstream URL, when known.
    pub homepage: Option<String>,
    /// Maintainer, when known.
    pub maintainer: Option<String>,
    /// Build time as unix seconds UTC, when in range.
    pub build_date: Option<i64>,
}

/// The first components of a pair list.
pub open spec fn pair_keys(s: Seq<(Seq<char>, Seq<char>)>) -> Seq<Seq<char>> {
    s.map_values(|kv: (Seq<char>, Seq<char>)| kv.0)
}

fn dep_names(pairs: &Vec<(String, String)>) -> (r: Vec<String>)
    ensures
        r.deep_view() == pair_keys(pairs.deep_view()),
{
    let n: usize = pairs.len();
    let mut r: Vec<String> = Vec::new();
    let mut i: usize = 0;
    while i < n
        invariant
            n == pairs@.len(),
            i <= n,
            r.deep_view() =~~= pair_keys(pairs.deep_view()).take(i as int),
        decreases n - i,
    {
        proof {
            assert(pairs@[i as int].0@ == pairs.deep_view()[i as int].0);
            assert(pair_keys(pairs.deep_view())[i as int] == pairs.deep_view()[i as int].0);
        }
        let ghost rv0 = r@;
        let ghost rdv0 = r.deep_view();
        r.push(pairs[i].0.clone());
        i = i + 1;
        proof {
            let pk = pair_keys(pairs.deep_view());
            assert(rdv0 == pk.take(i - 1));
            assert(rdv0.len() == i - 1);
            assert(rv0.len() == i - 1);
            assert forall|k: int| 0 <= k < i implies r.deep_view()[k] == pk.take(i as int)[k] by {
                assert(r.deep_view()[k] == r@[k]@);
                if k < i - 1 {
                    assert(r@[k] == rv0[k]);
                    assert(rdv0[k] == rv0[k]@);
                    assert(rdv0[k] == pk.take(i - 1)[k]);
                }
            }
            assert(r.deep_view() =~~= pk.take(i as int));
        }
    }
    proof {
        assert(pair_keys(pairs.deep_view()).take(n as int) =~= pair_keys(pairs.deep_view()));
    }
    r
}

fn opt_nonempty(s: &String) -> (r: Option<String>)
    ensures
        r == (if s@.len() == 0 {
            None::<String>
        } else {
            Some(*s)
        }),
{
    if s.as_str().unicode_len() == 0 {
        None
    } else {
        Some(s.clone())
    }
}

/// Builds the index entry for one archive: the info's fields carried over,
/// the digest of the archive bytes, dependency names sorted with their
/// constraints dropped, and the build time kept only when a calendar
/// library accepts it.
pub fn build_entry(info: &PackageInfo, base_name: &str, size: u64, data: &Vec<u8>) -> (r:
    PackageEntry)
    ensures
        r.name@ == info.name@,
        r.version@ == info.version@,
        r.release == info.release,
        r.description@ == info.description@,
        r.arch@ == info.arch@,
        r.size == size,
        r.sha256@ == hex_of(sha256_of(data@)),
        r.sha256@.len() == 64,
        r.filename@ == "packages/"@ + base_name@,
        seq_sorted(r.depends.deep_view()),
        r.depends.deep_view().to_multiset() == pair_keys(info.depends.deep_view()).to_multiset(),
        seq_sorted(r.build_depends.deep_view()),
        r.build_depends.deep_view().to_multiset() == pair_keys(
            info.build_depends.deep_view(),
        ).to_multiset(),
        r.provides@.len() == 0,
        r.conflicts@.len() == 0,
        r.replaces@.len() == 0,
        r.license == (if info.license@.len() == 0 {
            None::<String>
        } else {
            Some(info.license)
        }),
        r.homepage == (if info.url@.len() == 0 {
            None::<String>
        } else {
            Some(info.url)
        }),
        r.maintainer == (if info.maintainer@.len() == 0 {
            None::<String>
        } else {
            Some(info.maintainer)
        }),
        r.build_date == (if utc_representable(info.build_time) {
            Some(info.build_time)
        } else {
            None::<i64>
        }),
{
    let depends = sort_strings(&dep_names(&info.depends));
    let build_depends = sort_strings(&dep_names(&info.build_depends));
    let mut filename = String::from_str("packages/");
    filename.append(base_name);
    PackageEntry {
        name: info.name.clone(),
        version: info.version.clone(),
        release: info.release,
        description: info.description.clone(),
        arch: info.arch.clone(),
        size,
        sha256: compute_sha256(data.as_slice()),
        filename,
        depends,
        build_depends,
        provides: Vec::new(),
        conflicts: Vec::new(),
        replaces: Vec::new(),
        license: opt_nonempty(&info.license),
        homepage: opt_nonempty(&info.url),
        maintainer: opt_nonempty(&info.maintainer),
        build_date: utc_seconds_checked(info.build_time),
    }
}

/// A named group of packages.
pub struct PackageGroup {
    /// Group name.
    pub name: String,
    /// What the group is for.
    pub description: String,
    /// Required member packages.
    pub packages: Vec<String>,
    /// Optional member packages.
    pub optional: Vec<String>,
    /// Whether the group is essential.
    pub essential: bool,
}

impl PackageGroup {
    /// An empty group.
    pub fn new(name: &str, description: &str) -> (r: PackageGroup)
        ensures
            r.name@ == name@,
            r.description@ == description@,
            r.packages@.len() == 0,
            r.optional@.len() == 0,
            !r.essential,
    {
        PackageGroup {
            name: String::from_str(name),
            description: String::from_str(description),
            packages: Vec::new(),
            optional: Vec::new(),
            essential: false,
        }
    }

    /// Adds a required member.
    pub fn add_package(&mut self, pkg: &str)
        ensures
            final(self).packages.deep_view() == old(self).packages.deep_view().push(pkg@),
            final(self).name == old(self).name,
            final(self).description == old(self).description,
            final(self).optional == old(self).optional,
            final(self).essential == old(self).essential,
    {
        let ghost dv0 = self.packages.deep_view();
        self.packages.push(String::from_str(pkg));
        proof {
            assert(self.packages.deep_view() =~~= dv0.push(pkg@));
        }
    }

    /// Adds an optional member.
    pub fn add_optional(&mut self, pkg: &str)
        ensures
            final(self).optional.deep_view() == old(self).optional.deep_view().push(pkg@),
            final(self).name == old(self).name,
            final(self).description == old(self).description,
            final(self).packages == old(self).packages,
            final(self).essential == old(self).essential,
    {
        let ghost dv0 = self.optional.deep_view();
        self.optional.push(String::from_str(pkg));
        proof {
            assert(self.optional.deep_view() =~~= dv0.push(pkg@));
        }
    }
}

/// One binary delta between two versions of a package.
pub struct RepoDelta {
    /// The version the delta applies to.
    pub from_version: String,
    /// The release the delta applies to.
    pub from_release: u32,
    /// The version the delta produces.
    pub to_version: String,
    /// The release the delta produces.
    pub to_release: u32,
    /// The delta file's path relative to the repository root.
    pub filename: String,
    /// The delta file's size in bytes.
    pub size: u64,
    /// SHA-256 of the delta file, in hexadecimal.
    pub sha256: String,
}

/// The first delta out of `ds`, from position `i` on, that applies to
/// `(v, rel)`.
pub open spec fn first_delta_from(ds: Seq<RepoDelta>, v: Seq<char>, rel: u32, i: int) -> Option<
    int,
>
    decreases ds.len() - i,
{
    if !(0 <= i < ds.len()) {
        None
    } else if ds[i].from_version@ == v && ds[i].from_release == rel {
        Some(i)
    } else {
        first_delta_from(ds, v, rel, i + 1)
    }
}

/// The deltas known for one package.
pub struct PackageDeltaIndex {
    /// The deltas, in the order they were recorded.
    pub deltas: Vec<RepoDelta>,
}

impl PackageDeltaIndex {
    /// The first delta that upgrades from the given version and release.
    pub fn find_delta_from(&self, version: &str, release: u32) -> (r: Option<usize>)
        ensures
            match r {
                Some(i) => first_delta_from(self.deltas@, version@, release, 0) == Some(i as int),
                None => first_delta_from(self.deltas@, version@, release, 0) is None,
            },
    {
        let n: usize = self.deltas.len();
        let mut i: usize = 0;
        while i < n
            invariant
                n == self.deltas@.len(),
                i <= n,
                first_delta_from(self.deltas@, version@, release, 0) == first_delta_from(
                    self.deltas@,
                    version@,
                    release,
                    i as int,
                ),
            decreases n - i,
        {
            let vc = str_to_chars(self.deltas[i].from_version.as_str());
            let qc = str_to_chars(version);
            if chars_eq(vc.as_slice(), qc.as_slice()) && self.deltas[i].from_release == release {
                return Some(i);
            }
            i = i + 1;
        }
        None
    }

    /// Whether a delta between the two exact version-release pairs exists.
    pub fn find_delta(
        &self,
        from_version: &str,
        from_release: u32,
        to_version: &str,
        to_release: u32,
    ) -> (r: Option<usize>)
        ensures
            match r {
                Some(i) => 0 <= i < self.deltas@.len() && delta_matches(
                    self.deltas@[i as int],
                    from_version@,
                    from_release,
                    to_version@,
                    to_release,
                ),
                None => !has_exact_delta(
                    self.deltas@,
                    from_version@,
                    from_release,
                    to_version@,
                    to_release,
                ),
            },
    {
        let n: usize = self.deltas.len();
        let mut i: usize = 0;
        while i < n
            invariant
                n == self.deltas@.len(),
                i <= n,
                forall|j: int|
                    0 <= j < i ==> !delta_matches(
                        self.deltas@[j],
                        from_version@,
                        from_release,
                        to_version@,
                        to_release,
                    ),
            decreases n - i,
        {
            let fv = str_to_chars(self.deltas[i].from_version.as_str());
            let fq = str_to_chars(from_version);
            let tv = str_to_chars(self.deltas[i].to_version.as_str());
            let tq = str_to_chars(to_version);
            if chars_eq(fv.as_slice(), fq.as_slice()) && self.deltas[i].from_release
                == from_release && chars_eq(tv.as_slice(), tq.as_slice())
                && self.deltas[i].to_release == to_release {
                return Some(i);
            }
            i = i + 1;
        }
        None
    }
}

/// Whether `d` upgrades exactly from `(fv, fr)` to `(tv, tr)`.
pub open spec fn delta_matches(d: RepoDelta, fv: Seq<char>, fr: u32, tv: Seq<char>, tr: u32) -> bool {
    d.from_version@ == fv && d.from_release == fr && d.to_version@ == tv && d.to_release == tr
}

/// Whether some delta of `ds` upgrades exactly from `(fv, fr)` to
/// `(tv, tr)`.
pub open spec fn has_exact_delta(
    ds: Seq<RepoDelta>,
    fv: Seq<char>,
    fr: u32,
    tv: Seq<char>,
    tr: u32,
) -> bool {
    exists|j: int| 0 <= j < ds.len() && delta_matches(ds[j], fv, fr, tv, tr)
}

/// The first per-package delta index recorded for `name`, from position
/// `i` on.
pub open spec fn first_index_for(
    ps: Seq<(String, PackageDeltaIndex)>,
    name: Seq<char>,
    i: int,
) -> Option<int>
    decreases ps.len() - i,
{
    if !(0 <= i < ps.len()) {
        None
    } else if ps[i].0@ == name {
        Some(i)
    } else {
        first_index_for(ps, name, i + 1)
    }
}

/// A found per-package index lies in range and carries the name.
pub proof fn lemma_first_index_for_range(
    ps: Seq<(String, PackageDeltaIndex)>,
    name: Seq<char>,
    k: int,
    i: int,
)
    requires
        0 <= k,
        first_index_for(ps, name, k) == Some(i),
    ensures
        k <= i < ps.len(),
        ps[i].0@ == name,
    decreases ps.len() - k,
{
    if k < ps.len() && ps[k].0@ != name {
        lemma_first_index_for_range(ps, name, k + 1, i);
    }
}

/// The delta indexes of a repository, keyed by package name.
pub struct RepoDeltaIndex {
    /// Per-package delta indexes.
    pub packages: Vec<(String, PackageDeltaIndex)>,
}

impl RepoDeltaIndex {
    /// The per-package index for `name`, taking the first entry.
    pub fn index_for(&self, name: &str) -> (r: Option<usize>)
        ensures
            match r {
                Some(i) => first_index_for(self.packages@, name@, 0) == Some(i as int),
                None => first_index_for(self.packages@, name@, 0) is None,
            },
    {
        let n: usize = self.packages.len();
        let mut i: usize = 0;
        while i < n
            invariant
                n == self.packages@.len(),
                i <= n,
                first_index_for(self.packages@, name@, 0) == first_index_for(
                    self.packages@,
                    name@,
                    i as int,
                ),
            decreases n - i,
        {
            let pc = str_to_chars(self.packages[i].0.as_str());
            let qc = str_to_chars(name);
            if chars_eq(pc.as_slice(), qc.as_slice()) {
                return Some(i);
            }
            i = i + 1;
        }
        None
    }
}

/// Whether the index knows a delta upgrading `name` between the two exact
/// version-release pairs: its delta index has a first entry for the name,
/// and that entry holds a matching delta.
pub open spec fn upgrade_delta_available(
    ix: PackageIndex,
    name: Seq<char>,
    fv: Seq<char>,
    fr: u32,
    tv: Seq<char>,
    tr: u32,
) -> bool {
    match ix.delta_index {
        Some(di) => match first_index_for(di.packages@, name, 0) {
            Some(i) => has_exact_delta(di.packages@[i].1.deltas@, fv, fr, tv, tr),
            None => false,
        },
        None => false,
    }
}

/// The names of the indexed packages, in index order.
pub open spec fn entry_names(es: Seq<PackageEntry>) -> Seq<Seq<char>> {
    es.map_values(|e: PackageEntry| e.name@)
}

/// The signed package index of a repository.
pub struct PackageIndex {
    /// The repository's name.
    pub repository_name: String,
    /// The generation count: always the number of packages.
    pub count: usize,
    /// The indexed packages, in scan order.
    pub packages: Vec<PackageEntry>,
    /// The package groups.
    pub groups: Vec<PackageGroup>,
    /// The delta index, when one is attached.
    pub delta_index: Option<RepoDeltaIndex>,
}

impl PackageIndex {
    /// The count always equals the number of packages.
    pub open spec fn wf(&self) -> bool {
        self.count == self.packages@.len()
    }

    /// An empty index for a repository.
    pub fn new(repository_name: &str) -> (r: PackageIndex)
        ensures
            r.wf(),
            r.repository_name@ == repository_name@,
            r.count == 0,
            r.packages@.len() == 0,
            r.groups@.len() == 0,
            r.delta_index is None,
    {
        PackageIndex {
            repository_name: String::from_str(repository_name),
            count: 0,
            packages: Vec::new(),
            groups: Vec::new(),
            delta_index: None,
        }
    }

    /// Appends one package, keeping the count equal to the length.
    pub fn add_package(&mut self, entry: PackageEntry)
        requires
            old(self).wf(),
            old(self).packages@.len() < usize::MAX,
        ensures
            final(self).wf(),
            final(self).packages@ == old(self).packages@.push(entry),
            final(self).count == old(self).count + 1,
            final(self).repository_name == old(self).repository_name,
            final(self).groups == old(self).groups,
            final(self).delta_index == old(self).delta_index,
    {
        self.packages.push(entry);
        self.count = self.count + 1;
    }

    /// Appends one group.
    pub fn add_group(&mut self, group: PackageGroup)
        ensures
            final(self).groups@ == old(self).groups@.push(group),
            final(self).packages == old(self).packages,
            final(self).count == old(self).count,
            final(self).repository_name == old(self).repository_name,
            final(self).delta_index == old(self).delta_index,
    {
        self.groups.push(group);
    }

    /// Attaches the delta index.
    pub fn set_delta_index(&mut self, delta: RepoDeltaIndex)
        ensures
            final(self).delta_index == Some(delta),
            final(self).packages == old(self).packages,
            final(self).count == old(self).count,
            final(self).repository_name == old(self).repository_name,
            final(self).groups == old(self).groups,
    {
        self.delta_index = Some(delta);
    }

    /// The position of the first package with this name.
    pub fn find_package(&self, name: &str) -> (r: Option<usize>)
        ensures
            match r {
                Some(i) => 0 <= i < self.packages@.len() && self.packages@[i as int].name@ == name@
                    && (forall|j: int| 0 <= j < i ==> self.packages@[j].name@ != name@),
                None => !entry_names(self.packages@).contains(name@),
            },
    {
        let n: usize = self.packages.len();
        let qc = str_to_chars(name);
        let mut i: usize = 0;
        while i < n
            invariant
                n == self.packages@.len(),
                qc@ == name@,
                i <= n,
                forall|j: int| 0 <= j < i ==> self.packages@[j].name@ != name@,
            decreases n - i,
        {
            let pc = str_to_chars(self.packages[i].name.as_str());
            if chars_eq(pc.as_slice(), qc.as_slice()) {
                return Some(i);
            }
            i = i + 1;
        }
        proof {
            assert forall|j: int| 0 <= j < entry_names(self.packages@).len() implies entry_names(
                self.packages@,
            )[j] != name@ by {
                assert(entry_names(self.packages@)[j] == self.packages@[j].name@);
            }
        }
        None
    }

    /// Whether a package with this name is indexed.
    pub fn has_package(&self, name: &str) -> (r: bool)
        ensures
            r == entry_names(self.packages@).contains(name@),
    {
        match self.find_package(name) {
            Some(i) => {
                proof {
                    assert(entry_names(self.packages@)[i as int] == name@);
                }
                true
            },
            None => false,
        }
    }

    /// Whether a delta exists upgrading `name` between the two exact
    /// version-release pairs.
    pub fn has_delta_for_upgrade(
        &self,
        name: &str,
        from_version: &str,
        from_release: u32,
        to_version: &str,
        to_release: u32,
    ) -> (r: bool)
        ensures
            r == upgrade_delta_available(
                *self,
                name@,
                from_version@,
                from_release,
                to_version@,
                to_release,
            ),
    {
        match &self.delta_index {
            Some(di) => {
                match di.index_for(name) {
                    Some(i) => {
                        proof {
                            lemma_first_index_for_range(di.packages@, name@, 0, i as int);
                        }
                        match di.packages[i].1.find_delta(
                            from_version,
                            from_release,
                            to_version,
                            to_release,
                        ) {
                            Some(j) => {
                                proof {
                                    assert(delta_matches(
                                        di.packages@[i as int].1.deltas@[j as int],
                                        from_version@,
                                        from_release,
                                        to_version@,
                                        to_release,
                                    ));
                                }
                                true
                            },
                            None => false,
                        }
                    },
                    None => false,
                }
            },
            None => false,
        }
    }

    /// The required members of `group` that the index does not hold.
    pub fn missing_members(&self, group: &PackageGroup) -> (r: Vec<String>)
        ensures
            r.deep_view() == group.packages.deep_view().filter(
                |n: Seq<char>| !entry_names(self.packages@).contains(n),
            ),
    {
        broadcast use vstd::seq_lib::group_seq_properties;

        let ghost pred = |n: Seq<char>| !entry_names(self.packages@).contains(n);
        let n: usize = group.packages.len();
        let mut r: Vec<String> = Vec::new();
        let mut i: usize = 0;
        proof {
            reveal(Seq::filter);
            assert(r.deep_view() =~~= group.packages.deep_view().take(0).filter(pred));
        }
        while i < n
            invariant
                n == group.packages@.len(),
                i <= n,
                pred == (|n: Seq<char>| !entry_names(self.packages@).contains(n)),
                r.deep_view() == group.packages.deep_view().take(i as int).filter(pred),
            decreases n - i,
        {
            let ghost dv = group.packages.deep_view();
            let ghost rdv0 = r.deep_view();
            let ghost rv0 = r@;
            proof {
                assert(group.packages@[i as int]@ == dv[i as int]);
                assert(dv.take(i + 1).drop_last() =~= dv.take(i as int));
                assert(dv.take(i + 1).last() == dv[i as int]);
            }
            if !self.has_package(group.packages[i].as_str()) {
                r.push(group.packages[i].clone());
                proof {
                    assert(r.deep_view() =~~= rdv0.push(dv[i as int]));
                    assert(!entry_names(self.packages@).contains(dv[i as int]));
                    assert(pred(dv[i as int]));
                }
            } else {
                proof {
                    assert(entry_names(self.packages@).contains(dv[i as int]));
                    assert(!pred(dv[i as int]));
                }
            }
            proof {
                reveal(Seq::filter);
                assert(dv.take(i + 1).filter(pred) == (if pred(dv[i as int]) {
                    dv.take(i as int).filter(pred).push(dv[i as int])
                } else {
                    dv.take(i as int).filter(pred)
                }));
                assert(r.deep_view() == dv.take(i + 1).filter(pred));
            }
            i = i + 1;
        }
        proof {
            assert(group.packages.deep_view().take(n as int) =~= group.packages.deep_view());
        }
        r
    }
}

/// An index freshly built from a scan: the entries in scan order, the
/// groups attached, the delta index carried over, and the count equal to
/// the number of entries.
pub open spec fn index_built_from(
    ix: PackageIndex,
    repository_name: Seq<char>,
    entries: Seq<PackageEntry>,
    groups: Seq<PackageGroup>,
    delta: Option<RepoDeltaIndex>,
) -> bool {
    &&& ix.repository_name@ == repository_name
    &&& ix.packages@ == entries
    &&& ix.groups@ == groups
    &&& ix.delta_index == delta
    &&& ix.count == entries.len()
    &&& ix.wf()
}

/// Rebuilds the index from scratch out of one scan's results.
pub fn build_index(
    repository_name: &str,
    entries: Vec<PackageEntry>,
    groups: Vec<PackageGroup>,
    delta: Option<RepoDeltaIndex>,
) -> (r: PackageIndex)
    requires
        entries@.len() < usize::MAX,
    ensures
        index_built_from(r, repository_name@, entries@, groups@, delta),
{
    let count: usize = entries.len();
    PackageIndex {
        repository_name: String::from_str(repository_name),
        count,
        packages: entries,
        groups,
        delta_index: delta,
    }
}

/// Rebuilding the index is deterministic: two indexes built from the same
/// scan results are the same index, so an unchanged package directory
/// refreshes to an identical `packages.json`.
pub proof fn lemma_refresh_deterministic(
    a: PackageIndex,
    b: PackageIndex,
    repository_name: Seq<char>,
    entries: Seq<PackageEntry>,
    groups: Seq<PackageGroup>,
    delta: Option<RepoDeltaIndex>,
)
    requires
        index_built_from(a, repository_name, entries, groups, delta),
        index_built_from(b, repository_name, entries, groups, delta),
    ensures
        a.repository_name@ == b.repository_name@,
        a.count == b.count,
        a.packages@ == b.packages@,
        a.groups@ == b.groups@,
        a.delta_index == b.delta_index,
{
}

/// The identity block of `repo.toml`.
pub struct RepositoryInfo {
    /// Repository name.
    pub name: String,
    /// What the repository holds.
    pub description: String,
    /// Format version.
    pub version: u32,
    /// When the repository was last touched, as unix seconds UTC.
    pub updated: Option<i64>,
}

/// The signing block of `repo.toml`.
pub struct RepoSigningInfo {
    /// The signing key's fingerprint.
    pub fingerprint: String,
    /// The public key, when it is published in the metadata.
    pub public_key: Option<String>,
}

/// The repository metadata stored in `repo.toml`.
pub struct RepoMetadata {
    /// The identity block.
    pub repository: RepositoryInfo,
    /// The signing block.
    pub signing: RepoSigningInfo,
    /// Mirror URLs.
    pub mirrors: Vec<String>,
}

/// A detached signature: opaque bytes plus the fingerprint by which the
/// verifier finds the public key.
pub struct HybridSignature {
    /// The fingerprint of the signing key.
    pub fingerprint: String,
    /// The signature bytes.
    pub signature: Vec<u8>,
}

/// What initialisation writes: the metadata for `repo.toml` and the empty
/// index for `packages.json`; the caller also creates `packages/` and a
/// detached signature beside the index.
pub struct InitPlan {
    /// The metadata to write to `repo.toml`.
    pub metadata: RepoMetadata,
    /// The empty index to write to `packages.json`.
    pub index: PackageIndex,
}

/// Plans the initialisation of a repository: refused without a signing
/// key, refused when `repo.toml` already exists, else the metadata and the
/// empty index to write.
pub fn plan_init(
    have_signing_key: bool,
    signing_fingerprint: &str,
    repo_toml_exists: bool,
    name: &str,
    description: &str,
    updated: i64,
) -> (r: Result<InitPlan, RookError>)
    ensures
        !have_signing_key ==> r == Err::<InitPlan, RookError>(RookError::MissingKey),
        have_signing_key && repo_toml_exists ==> r == Err::<InitPlan, RookError>(
            RookError::AlreadyExists,
        ),
        have_signing_key && !repo_toml_exists ==> (r matches Ok(p) && {
            &&& p.metadata.repository.name@ == name@
            &&& p.metadata.repository.description@ == description@
            &&& p.metadata.repository.version == 1u32
            &&& p.metadata.repository.updated == Some(updated)
            &&& p.metadata.signing.fingerprint@ == signing_fingerprint@
            &&& p.metadata.signing.public_key is None
            &&& p.metadata.mirrors@.len() == 0
            &&& p.index.wf()
            &&& p.index.count == 0
            &&& p.index.packages@.len() == 0
            &&& p.index.groups@.len() == 0
            &&& p.index.delta_index is None
            &&& p.index.repository_name@ == name@
        }),
{
    if !have_signing_key {
        return Err(RookError::MissingKey);
    }
    if repo_toml_exists {
        return Err(RookError::AlreadyExists);
    }
    let metadata = RepoMetadata {
        repository: RepositoryInfo {
            name: String::from_str(name),
            description: String::from_str(description),
            version: 1,
            updated: Some(updated),
        },
        signing: RepoSigningInfo {
            fingerprint: String::from_str(signing_fingerprint),
            public_key: None,
        },
        mirrors: Vec::new(),
    };
    let index = PackageIndex::new(name);
    Ok(InitPlan { metadata, index })
}

/// The refresh gate: a directory without `repo.toml` is not a repository.
pub fn require_repository(repo_toml_exists: bool) -> (r: Result<(), RookError>)
    ensures
        r == (if repo_toml_exists {
            Ok::<(), RookError>(())
        } else {
            Err::<(), RookError>(RookError::NotARepository)
        }),
{
    if repo_toml_exists {
        Ok(())
    } else {
        Err(RookError::NotARepository)
    }
}

} // verus!
