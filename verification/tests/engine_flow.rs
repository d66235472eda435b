//! The resolution cache, the reconciliation engine, and the assembled
//! manifest, exercised end to end on small fixtures.

use buildinfo_crawler::db::Database;
use buildinfo_crawler::deb::{DebianBinaryPkg, DebianSource};
use buildinfo_crawler::engine::{CrawlStep, Group, Reconciler, StepResult};
use buildinfo_crawler::errors::{Error, ParseField};
use buildinfo_crawler::models::buildinfo::Buildinfo as BuildinfoRow;
use buildinfo_crawler::output::assemble;

fn mk_pkg(
    name: &str,
    src_name: &str,
    src_version: Option<&str>,
    version: &str,
    file_name: &str,
    deb_folder: &str,
) -> DebianBinaryPkg {
    DebianBinaryPkg {
        name: name.as_bytes().to_vec(),
        source: DebianSource {
            name: src_name.as_bytes().to_vec(),
            version: src_version.map(|v| v.as_bytes().to_vec()),
        },
        version: version.as_bytes().to_vec(),
        architecture: Some(b"amd64".to_vec()),
        file_name: file_name.as_bytes().to_vec(),
        deb_folder: deb_folder.as_bytes().to_vec(),
    }
}

const SNIFFGLUE_CONTENT: &str = "Source: rust-sniffglue\nVersion: 0.14.0-2\nArchitecture: amd64\nChecksums-Sha256:\n aaa 1 sniffglue_0.14.0-2_amd64.deb\n bbb 2 sniffglue-dbgsym_0.14.0-2_amd64.deb\n";

fn contains_sub(hay: &[u8], needle: &[u8]) -> bool {
    hay.windows(needle.len()).any(|w| w == needle)
}

#[test]
fn lookup_by_artifact_filename_is_idempotent() {
    let mut db = Database::new();
    db.add_buildinfo(
        b"https://example.org/a.buildinfo".to_vec(),
        SNIFFGLUE_CONTENT.as_bytes().to_vec(),
    )
    .unwrap();
    let r1 = db.buildinfo_for_artifact_filename(b"sniffglue_0.14.0-2_amd64.deb");
    let r2 = db.buildinfo_for_artifact_filename(b"sniffglue_0.14.0-2_amd64.deb");
    let r1 = r1.unwrap();
    let r2 = r2.unwrap();
    assert_eq!(r1.id, r2.id);
    assert_eq!(r1.url, r2.url);
    assert_eq!(r1.content, r2.content);
}

#[test]
fn lookup_of_unknown_filename_is_none() {
    let db = Database::new();
    assert!(db.buildinfo_for_artifact_filename(b"nope.deb").is_none());
}

#[test]
fn add_buildinfo_returns_declared_artifacts() {
    let mut db = Database::new();
    let names = db
        .add_buildinfo(
            b"https://example.org/a.buildinfo".to_vec(),
            SNIFFGLUE_CONTENT.as_bytes().to_vec(),
        )
        .unwrap();
    assert_eq!(names.len(), 2);
    assert!(names.contains(&b"sniffglue_0.14.0-2_amd64.deb".to_vec()));
    assert!(names.contains(&b"sniffglue-dbgsym_0.14.0-2_amd64.deb".to_vec()));
}

#[test]
fn add_buildinfo_twice_same_url_is_storage_error() {
    let mut db = Database::new();
    let url = b"https://example.org/a.buildinfo".to_vec();
    db.add_buildinfo(url.clone(), SNIFFGLUE_CONTENT.as_bytes().to_vec()).unwrap();
    let err = db.add_buildinfo(url, SNIFFGLUE_CONTENT.as_bytes().to_vec()).unwrap_err();
    assert_eq!(err, Error::StorageError);
}

#[test]
fn add_buildinfo_bad_document_changes_nothing() {
    let mut db = Database::new();
    let err = db
        .add_buildinfo(b"https://example.org/a.buildinfo".to_vec(), b"Version: 1\n".to_vec())
        .unwrap_err();
    assert_eq!(err, Error::ParseError(ParseField::BuildinfoSource));
    assert!(db.buildinfo_url_cache(b"https://example.org/a.buildinfo").is_none());
}

#[test]
fn orphaned_when_crawling_disabled() {
    let pkg = mk_pkg(
        "sniffglue",
        "rust-sniffglue",
        None,
        "0.14.0-2",
        "sniffglue_0.14.0-2_amd64.deb",
        "r/rust-sniffglue",
    );
    let mut rec = Reconciler::new(Database::new());
    let step = rec.begin(pkg, true);
    assert!(matches!(step, StepResult::Orphaned));
    assert_eq!(rec.groups.len(), 0);
    assert_eq!(rec.without_buildinfo.len(), 1);
    let out = assemble(&rec.groups, &rec.without_buildinfo, b"debian", b"main");
    assert_eq!(out.len(), 1);
    assert_eq!(out[0].architecture, b"???".to_vec());
    assert!(contains_sub(&out[0].input_url, b"missing-buildinfo/rust-sniffglue/"));
}

#[test]
fn two_packages_share_one_buildinfo_group() {
    let url = b"https://example.org/rust-sniffglue_0.14.0-2_amd64.buildinfo".to_vec();
    let mut db = Database::new();
    db.add_buildinfo(url.clone(), SNIFFGLUE_CONTENT.as_bytes().to_vec()).unwrap();
    let pkg1 = mk_pkg(
        "sniffglue",
        "rust-sniffglue",
        None,
        "0.14.0-2",
        "sniffglue_0.14.0-2_amd64.deb",
        "r/rust-sniffglue",
    );
    let pkg2 = mk_pkg(
        "sniffglue-dbgsym",
        "rust-sniffglue",
        None,
        "0.14.0-2",
        "sniffglue-dbgsym_0.14.0-2_amd64.deb",
        "r/rust-sniffglue",
    );
    let mut rec = Reconciler::new(db);
    assert!(matches!(rec.begin(pkg1, true), StepResult::Grouped));
    assert!(matches!(rec.begin(pkg2, true), StepResult::Grouped));
    assert_eq!(rec.groups.len(), 1);
    let out = assemble(&rec.groups, &rec.without_buildinfo, b"debian", b"main");
    assert_eq!(out.len(), 1);
    assert_eq!(out[0].artifacts.len(), 2);
    assert_eq!(out[0].artifacts[0].name, b"sniffglue".to_vec());
    assert_eq!(out[0].artifacts[1].name, b"sniffglue-dbgsym".to_vec());
    assert_eq!(out[0].input_url, url);
    assert_eq!(out[0].architecture, b"amd64".to_vec());
}

#[test]
fn crawl_resolves_from_newest_candidate() {
    let pkg = mk_pkg(
        "sniffglue",
        "rust-sniffglue",
        None,
        "0.14.0-2",
        "sniffglue_0.14.0-2_amd64.deb",
        "r/rust-sniffglue",
    );
    let mut rec = Reconciler::new(Database::new());
    let crawl = match rec.begin(pkg, false) {
        StepResult::NeedListing(c) => c,
        _ => panic!("expected a crawl"),
    };
    assert_eq!(
        crawl.dir_url,
        b"https://buildinfos.debian.net/buildinfo-pool/r/rust-sniffglue/".to_vec()
    );
    let hrefs = vec![b"old.buildinfo".to_vec(), b"new.buildinfo".to_vec()];
    let crawl = match rec.on_listing(crawl, Some(hrefs)) {
        CrawlStep::NeedBody(c) => c,
        _ => panic!("expected a body fetch"),
    };
    // The listing is tried in reverse: the last href comes first.
    assert_eq!(
        crawl.candidates[crawl.next],
        b"https://buildinfos.debian.net/buildinfo-pool/r/rust-sniffglue/new.buildinfo".to_vec()
    );
    let step = rec.on_body(crawl, SNIFFGLUE_CONTENT.as_bytes().to_vec()).unwrap();
    assert!(matches!(step, CrawlStep::Grouped));
    assert_eq!(rec.groups.len(), 1);
    assert_eq!(rec.groups[0].pkgs.len(), 1);
}

#[test]
fn crawl_listing_failure_orphans_package() {
    let pkg = mk_pkg("foo", "src-foo", None, "1", "foo_1_amd64.deb", "s/src-foo");
    let mut rec = Reconciler::new(Database::new());
    let crawl = match rec.begin(pkg, false) {
        StepResult::NeedListing(c) => c,
        _ => panic!("expected a crawl"),
    };
    let step = rec.on_listing(crawl, None);
    assert!(matches!(step, CrawlStep::Orphaned));
    assert_eq!(rec.without_buildinfo.len(), 1);
}

#[test]
fn crawl_exhausting_candidates_orphans_package() {
    let pkg = mk_pkg("foo", "src-foo", None, "1", "foo_1_amd64.deb", "s/src-foo");
    let mut rec = Reconciler::new(Database::new());
    let crawl = match rec.begin(pkg, false) {
        StepResult::NeedListing(c) => c,
        _ => panic!("expected a crawl"),
    };
    let crawl = match rec.on_listing(crawl, Some(vec![b"only.buildinfo".to_vec()])) {
        CrawlStep::NeedBody(c) => c,
        _ => panic!("expected a body fetch"),
    };
    // A document that does not name the package's file does not resolve it.
    let other = "Source: src-foo\nVersion: 1\nChecksums-Sha256:\n aaa 1 other.deb\n";
    let step = rec.on_body(crawl, other.as_bytes().to_vec()).unwrap();
    assert!(matches!(step, CrawlStep::Orphaned));
    assert_eq!(rec.without_buildinfo.len(), 1);
}

#[test]
fn crawl_body_that_is_not_utf8_is_fatal() {
    let pkg = mk_pkg("foo", "src-foo", None, "1", "foo_1_amd64.deb", "s/src-foo");
    let mut rec = Reconciler::new(Database::new());
    let crawl = match rec.begin(pkg, false) {
        StepResult::NeedListing(c) => c,
        _ => panic!("expected a crawl"),
    };
    let crawl = match rec.on_listing(crawl, Some(vec![b"only.buildinfo".to_vec()])) {
        CrawlStep::NeedBody(c) => c,
        _ => panic!("expected a body fetch"),
    };
    let err = rec.on_body(crawl, vec![0xff, 0xfe, 0x00]).unwrap_err();
    assert_eq!(err, Error::EncodingError);
}

#[test]
fn crawl_skips_already_cached_candidates() {
    let mut db = Database::new();
    // The cached candidate belongs to another package's document.
    let other = "Source: src-foo\nVersion: 1\nChecksums-Sha256:\n aaa 1 other.deb\n";
    db.add_buildinfo(
        b"https://buildinfos.debian.net/buildinfo-pool/s/src-foo/b.buildinfo".to_vec(),
        other.as_bytes().to_vec(),
    )
    .unwrap();
    let pkg = mk_pkg("foo", "src-foo", None, "1", "foo_1_amd64.deb", "s/src-foo");
    let mut rec = Reconciler::new(db);
    let crawl = match rec.begin(pkg, false) {
        StepResult::NeedListing(c) => c,
        _ => panic!("expected a crawl"),
    };
    let hrefs = vec![b"a.buildinfo".to_vec(), b"b.buildinfo".to_vec()];
    let crawl = match rec.on_listing(crawl, Some(hrefs)) {
        CrawlStep::NeedBody(c) => c,
        _ => panic!("expected a body fetch"),
    };
    // b.buildinfo is tried first (reversed order) but is already cached.
    assert_eq!(
        crawl.candidates[crawl.next],
        b"https://buildinfos.debian.net/buildinfo-pool/s/src-foo/a.buildinfo".to_vec()
    );
}

#[test]
fn single_group_single_package_roundtrip() {
    let content = "Source: rust-foo\nVersion: 1.0\nArchitecture: amd64\nChecksums-Sha256:\n aaa 1 foo_1.0_amd64.deb\n";
    let pkg = mk_pkg("foo", "rust-foo", None, "1.0", "foo_1.0_amd64.deb", "r/rust-foo");
    let group = Group {
        buildinfo: BuildinfoRow {
            id: 0,
            url: b"https://example.org/rust-foo_1.0.buildinfo".to_vec(),
            content: content.as_bytes().to_vec(),
        },
        pkgs: vec![pkg],
    };
    let groups = vec![group];
    let out = assemble(&groups, &Vec::new(), b"debian", b"main");
    assert_eq!(out.len(), 1);
    assert_eq!(out[0].artifacts.len(), 1);
    assert_eq!(
        out[0].artifacts[0].url,
        b"https://deb.debian.org/debian/pool/main/r/rust-foo/foo_1.0_amd64.deb".to_vec()
    );
    assert_eq!(out[0].input_url, b"https://example.org/rust-foo_1.0.buildinfo".to_vec());
}

#[test]
fn entries_sort_by_name() {
    let p1 = mk_pkg("pkg-b", "b", Some("1"), "1", "b_1.deb", "b/b");
    let p2 = mk_pkg("pkg-a", "a", Some("1"), "1", "a_1.deb", "a/a");
    let orphans = vec![p1, p2];
    let out = assemble(&Vec::new(), &orphans, b"debian", b"main");
    assert_eq!(out.len(), 2);
    assert_eq!(out[0].name, b"a".to_vec());
    assert_eq!(out[1].name, b"b".to_vec());
}

#[test]
fn entries_sort_versions_lexicographically_not_numerically() {
    let p1 = mk_pkg("pkg-1", "a", Some("2"), "2", "a_2.deb", "a/a");
    let p2 = mk_pkg("pkg-2", "a", Some("10"), "10", "a_10.deb", "a/a");
    let orphans = vec![p1, p2];
    let out = assemble(&Vec::new(), &orphans, b"debian", b"main");
    assert_eq!(out.len(), 2);
    // Byte-wise comparison puts "10" before "2".
    assert_eq!(out[0].version, b"10".to_vec());
    assert_eq!(out[1].version, b"2".to_vec());
}

#[test]
fn orphans_without_source_version_group_under_zero() {
    let p1 = mk_pkg("pkg-1", "a", None, "1", "a_1.deb", "a/a");
    let p2 = mk_pkg("pkg-2", "a", None, "2", "a_2.deb", "a/a");
    let orphans = vec![p1, p2];
    let out = assemble(&Vec::new(), &orphans, b"debian", b"main");
    assert_eq!(out.len(), 1);
    assert_eq!(out[0].version, b"0".to_vec());
    assert_eq!(out[0].artifacts.len(), 2);
    assert!(contains_sub(&out[0].input_url, b"missing-buildinfo/a/0"));
}

#[test]
fn resolved_entry_without_architecture_uses_sentinel() {
    let content = "Source: rust-foo\nVersion: 1.0\nChecksums-Sha256:\n aaa 1 foo_1.0_amd64.deb\n";
    let pkg = mk_pkg("foo", "rust-foo", None, "1.0", "foo_1.0_amd64.deb", "r/rust-foo");
    let group = Group {
        buildinfo: BuildinfoRow {
            id: 0,
            url: b"https://example.org/x.buildinfo".to_vec(),
            content: content.as_bytes().to_vec(),
        },
        pkgs: vec![pkg],
    };
    let groups = vec![group];
    let out = assemble(&groups, &Vec::new(), b"debian", b"main");
    assert_eq!(out[0].architecture, b"???".to_vec());
}
