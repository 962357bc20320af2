use rookpkg::errs::RookError;
use rookpkg::repo::{
    build_entry, build_index, classify_signature, compute_sha256, fingerprint_matches,
    find_matching_key, plan_init, require_repository, PackageDeltaIndex, PackageEntry,
    PackageGroup, PackageIndex, PackageInfo, PublicKeyRecord, RepoDelta, SigStatus,
};

fn sample_info() -> PackageInfo {
    PackageInfo {
        name: "hello".to_string(),
        version: "2.12".to_string(),
        release: 1,
        description: "greeter".to_string(),
        arch: "x86_64".to_string(),
        license: "GPL-3.0".to_string(),
        url: String::new(),
        maintainer: "dev <dev@example.com>".to_string(),
        depends: vec![
            ("zlib".to_string(), ">=1".to_string()),
            ("glibc".to_string(), ">=2".to_string()),
        ],
        build_depends: vec![("make".to_string(), String::new())],
        build_time: 1700000000,
    }
}

#[test]
fn empty_digest_is_the_known_vector() {
    let empty: Vec<u8> = Vec::new();
    assert_eq!(
        compute_sha256(&empty),
        "e3b0c44298fc1c149afbf4c8996fb92427ae41e4649b934ca495991b7852b855"
    );
}

#[test]
fn build_entry_sorts_dependency_names_and_drops_constraints() {
    let info = sample_info();
    let data: Vec<u8> = vec![1, 2, 3];
    let entry = build_entry(&info, "hello-2.12-1.rookpkg", 3, &data);
    assert_eq!(entry.name, "hello");
    assert_eq!(entry.version, "2.12");
    assert_eq!(entry.release, 1);
    assert_eq!(entry.filename, "packages/hello-2.12-1.rookpkg");
    assert_eq!(entry.size, 3);
    assert_eq!(entry.sha256.len(), 64);
    assert_eq!(entry.depends, vec!["glibc".to_string(), "zlib".to_string()]);
    assert_eq!(entry.build_depends, vec!["make".to_string()]);
    assert_eq!(entry.license, Some("GPL-3.0".to_string()));
    assert_eq!(entry.homepage, None);
    assert_eq!(entry.build_date, Some(1700000000));
}

#[test]
fn out_of_range_build_time_yields_no_date() {
    let mut info = sample_info();
    info.build_time = i64::MAX;
    let data: Vec<u8> = Vec::new();
    let entry = build_entry(&info, "x.rookpkg", 0, &data);
    assert_eq!(entry.build_date, None);
}

#[test]
fn entry_digest_matches_library_digest(){
    let info = sample_info();
    let data: Vec<u8> = vec![9, 9, 9];
    let entry = build_entry(&info, "x.rookpkg", 3, &data);
    assert_eq!(entry.sha256, compute_sha256(&data));
}

#[test]
fn test_key_suffix_matching() {
    assert!(fingerprint_matches("ABCDEF0123", "0123"));
    assert!(fingerprint_matches("0123", "ABCDEF0123"));
    assert!(fingerprint_matches("SAME", "SAME"));
    assert!(!fingerprint_matches("ABCD", "ABCE"));
}

fn key(fp: &str) -> PublicKeyRecord {
    PublicKeyRecord {
        name: "dev".to_string(),
        email: "dev@example.com".to_string(),
        fingerprint: fp.to_string(),
        key_data: vec![1],
    }
}

#[test]
fn resolver_takes_first_matching_key() {
    let keys = vec![key("AAAA"), key("BBBB1234"), key("1234")];
    assert_eq!(find_matching_key(&keys, "1234"), Some(1));
    assert_eq!(find_matching_key(&keys, "AAAA"), Some(0));
    assert_eq!(find_matching_key(&keys, "ZZZZ"), None);
}

#[test]
fn signature_classification() {
    assert_eq!(classify_signature(false, false), SigStatus::Unsigned);
    assert_eq!(classify_signature(true, true), SigStatus::Signed);
    assert_eq!(classify_signature(true, false), SigStatus::Invalid);
}

fn entry(name: &str) -> PackageEntry {
    let mut info = sample_info();
    info.name = name.to_string();
    let data: Vec<u8> = Vec::new();
    build_entry(&info, &format!("{}.rookpkg", name), 0, &data)
}

#[test]
fn index_count_tracks_packages() {
    let mut index = PackageIndex::new("testrepo");
    assert_eq!(index.count, 0);
    index.add_package(entry("a"));
    index.add_package(entry("b"));
    assert_eq!(index.count, 2);
    assert_eq!(index.packages.len(), 2);
}

#[test]
fn refresh_is_deterministic_for_equal_scans() {
    let a = build_index("r", vec![entry("a"), entry("b")], Vec::new(), None);
    let b = build_index("r", vec![entry("a"), entry("b")], Vec::new(), None);
    assert_eq!(a.count, b.count);
    assert_eq!(a.repository_name, b.repository_name);
    assert_eq!(a.packages.len(), b.packages.len());
    for (x, y) in a.packages.iter().zip(b.packages.iter()) {
        assert_eq!(x.name, y.name);
        assert_eq!(x.sha256, y.sha256);
        assert_eq!(x.filename, y.filename);
    }
}

#[test]
fn missing_members_reports_absent_names() {
    let index = build_index("r", vec![entry("a")], Vec::new(), None);
    let mut group = PackageGroup::new("core", "essential things");
    group.add_package("a");
    group.add_package("ghost");
    group.add_optional("maybe");
    let missing = index.missing_members(&group);
    assert_eq!(missing, vec!["ghost".to_string()]);
}

#[test]
fn find_package_finds_first_occurrence() {
    let index = build_index("r", vec![entry("a"), entry("b")], Vec::new(), None);
    assert_eq!(index.find_package("b"), Some(1));
    assert_eq!(index.find_package("zz"), None);
    assert!(index.has_package("a"));
    assert!(!index.has_package("zz"));
}

fn delta(fv: &str, fr: u32, tv: &str, tr: u32) -> RepoDelta {
    RepoDelta {
        from_version: fv.to_string(),
        from_release: fr,
        to_version: tv.to_string(),
        to_release: tr,
        filename: format!("deltas/{}-{}_{}-{}.delta", fv, fr, tv, tr),
        size: 10,
        sha256: String::new(),
    }
}

#[test]
fn delta_lookup_finds_upgrade_paths() {
    let pdi = PackageDeltaIndex {
        deltas: vec![delta("1.0", 1, "2.0", 1), delta("1.0", 1, "3.0", 1)],
    };
    assert_eq!(pdi.find_delta_from("1.0", 1), Some(0));
    assert_eq!(pdi.find_delta_from("9.9", 1), None);
    assert_eq!(pdi.find_delta("1.0", 1, "3.0", 1), Some(1));
    assert_eq!(pdi.find_delta("1.0", 1, "9.0", 1), None);
}

#[test]
fn test_init_plan() {
    let r = plan_init(false, "", false, "repo", "desc", 100);
    assert_eq!(r.err(), Some(RookError::MissingKey));

    let r = plan_init(true, "FPR", true, "repo", "desc", 100);
    assert_eq!(r.err(), Some(RookError::AlreadyExists));

    let plan = plan_init(true, "FPR", false, "repo", "desc", 100).unwrap();
    assert_eq!(plan.metadata.repository.name, "repo");
    assert_eq!(plan.metadata.repository.description, "desc");
    assert_eq!(plan.metadata.repository.version, 1);
    assert_eq!(plan.metadata.repository.updated, Some(100));
    assert_eq!(plan.metadata.signing.fingerprint, "FPR");
    assert_eq!(plan.metadata.signing.public_key, None);
    assert!(plan.metadata.mirrors.is_empty());
    assert_eq!(plan.index.count, 0);
    assert!(plan.index.packages.is_empty());
    assert!(plan.index.groups.is_empty());
    assert!(plan.index.delta_index.is_none());
}

#[test]
fn refresh_requires_a_repository() {
    assert_eq!(require_repository(false), Err(RookError::NotARepository));
    assert_eq!(require_repository(true), Ok(()));
}

#[test]
fn index_answers_delta_upgrade_queries() {
    let mut index = build_index("r", vec![entry("pkg")], Vec::new(), None);
    assert!(!index.has_delta_for_upgrade("pkg", "1.0", 1, "2.0", 1));
    let di = rookpkg::repo::RepoDeltaIndex {
        packages: vec![(
            "pkg".to_string(),
            PackageDeltaIndex { deltas: vec![delta("1.0", 1, "2.0", 1)] },
        )],
    };
    index.set_delta_index(di);
    assert!(index.has_delta_for_upgrade("pkg", "1.0", 1, "2.0", 1));
    assert!(!index.has_delta_for_upgrade("pkg", "1.0", 1, "3.0", 1));
    assert!(!index.has_delta_for_upgrade("other", "1.0", 1, "2.0", 1));
}
