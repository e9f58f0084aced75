use flate2::write::GzEncoder;
use flate2::Compression;
use mf2tar::pkgmf::{find_unresolved, Dir, Entry};
use mf2tar::repo::{
    check_inner, check_outer, find_package, hash_buf, to_hex, Package, PackageDir, RepoError,
    Repository, Version,
};
use std::io::Write;

fn gz(data: &[u8]) -> Vec<u8> {
    let mut e = GzEncoder::new(Vec::new(), Compression::default());
    e.write_all(data).unwrap();
    e.finish().unwrap()
}

fn repo() -> Repository {
    Repository::new("/r", true, true).unwrap()
}

#[test]
fn digests_in_lower_case_hex() {
    assert_eq!(hash_buf(b""), "da39a3ee5e6b4b0d3255bfef95601890afd80709");
    assert_eq!(hash_buf(b"abc"), "a9993e364706816aba3e25717850c26c9cd0d89d");
    assert_eq!(to_hex(&vec![0x00, 0xff, 0x1a, 0xa1, 0x09, 0x90]), "00ff1aa10990");
    assert_eq!(to_hex(&Vec::new()), "");
}

#[test]
fn a_stored_blob_that_matches_is_handed_out() {
    let stored = gz(b"hello world");
    let cname = hash_buf(b"hello world");
    let chash = hash_buf(&stored);
    assert_eq!(repo().file(&cname, &chash, &stored), Ok(b"hello world".to_vec()));
}

#[test]
fn a_corrupted_blob_fails_the_outer_check() {
    let mut stored = gz(b"hello world");
    let cname = hash_buf(b"hello world");
    let chash = hash_buf(&stored);
    let last = stored.len() - 1;
    stored[last] ^= 0x01;
    let actual = hash_buf(&stored);
    assert_eq!(
        repo().file(&cname, &chash, &stored),
        Err(RepoError::OuterHashMismatch { actual, expected: chash })
    );
}

#[test]
fn a_blob_with_other_content_fails_the_inner_check() {
    let stored = gz(b"something else");
    let cname = hash_buf(b"hello world");
    let chash = hash_buf(&stored);
    assert_eq!(
        repo().file(&cname, &chash, &stored),
        Err(RepoError::InnerHashMismatch {
            actual: hash_buf(b"something else"),
            expected: cname,
        })
    );
}

#[test]
fn a_blob_that_is_not_compressed_fails_to_decompress() {
    let stored = b"not gzip at all".to_vec();
    let chash = hash_buf(&stored);
    let r = repo().file(&hash_buf(b"x"), &chash, &stored);
    assert!(matches!(r, Err(RepoError::Decompress(_))));
}

#[test]
fn hash_checks_on_given_values() {
    assert_eq!(check_outer("ab".to_string(), "ab"), Ok(()));
    assert_eq!(
        check_outer("ab".to_string(), "AB"),
        Err(RepoError::OuterHashMismatch { actual: "ab".to_string(), expected: "AB".to_string() })
    );
    assert_eq!(check_inner(vec![1, 2], "cd".to_string(), "cd"), Ok(vec![1, 2]));
    assert_eq!(
        check_inner(vec![1, 2], "cd".to_string(), "cde"),
        Err(RepoError::InnerHashMismatch { actual: "cd".to_string(), expected: "cde".to_string() })
    );
}

#[test]
fn mismatch_in_words() {
    let e = RepoError::OuterHashMismatch { actual: "ab".to_string(), expected: "cd".to_string() };
    assert_eq!(e.message(), "hash mismatch: ab != expected cd");
    let e = RepoError::InnerHashMismatch { actual: "ab".to_string(), expected: "cd".to_string() };
    assert_eq!(e.message(), "hash mismatch: ab != expected cd");
    assert_eq!(
        RepoError::NotADirectory("/r/file".to_string()).message(),
        "/r/file is not a directory"
    );
    assert_eq!(RepoError::Decompress("why".to_string()).message(), "why");
    assert_eq!(
        RepoError::BadName("%FF".to_string()).message(),
        "name is not valid UTF-8: %FF"
    );
}

#[test]
fn both_directories_must_be_there() {
    assert_eq!(
        Repository::new("/r", true, true),
        Ok(Repository { file: "/r/file".to_string(), pkg: "/r/pkg".to_string() })
    );
    assert_eq!(
        Repository::new("/r/", true, true),
        Ok(Repository { file: "/r/file".to_string(), pkg: "/r/pkg".to_string() })
    );
    assert_eq!(
        Repository::new("/r", false, true),
        Err(RepoError::NotADirectory("/r/file".to_string()))
    );
    assert_eq!(
        Repository::new("/r", false, false),
        Err(RepoError::NotADirectory("/r/file".to_string()))
    );
    assert_eq!(
        Repository::new("/r", true, false),
        Err(RepoError::NotADirectory("/r/pkg".to_string()))
    );
    assert_eq!(Repository::store_dir("r"), "r/file");
    assert_eq!(Repository::package_dir(""), "pkg");
}

#[test]
fn blobs_are_sharded_by_two_digits() {
    assert_eq!(
        repo().blob_path("a9993e364706816aba3e25717850c26c9cd0d89d"),
        Some("/r/file/a9/a9993e364706816aba3e25717850c26c9cd0d89d".to_string())
    );
    assert_eq!(repo().blob_path("ab"), Some("/r/file/ab/ab".to_string()));
    assert_eq!(repo().blob_path("a"), None);
    assert_eq!(repo().blob_path(""), None);
}

#[test]
fn packages_and_versions_are_percent_decoded() {
    let listing = vec![
        PackageDir {
            name: "system%2Fheader".to_string(),
            files: vec!["0.5.11%2C5.11-0.1%3A2020".to_string(), "1.0".to_string()],
        },
        PackageDir { name: "empty".to_string(), files: Vec::new() },
    ];
    assert_eq!(
        repo().scan(&listing),
        Ok(vec![
            Package {
                name: "system/header".to_string(),
                versions: vec![
                    Version {
                        version: "0.5.11,5.11-0.1:2020".to_string(),
                        file: "/r/pkg/system%2Fheader/0.5.11%2C5.11-0.1%3A2020".to_string(),
                    },
                    Version {
                        version: "1.0".to_string(),
                        file: "/r/pkg/system%2Fheader/1.0".to_string(),
                    },
                ],
            },
            Package { name: "empty".to_string(), versions: Vec::new() },
        ])
    );
    assert_eq!(repo().scan(&Vec::new()), Ok(Vec::new()));
}

#[test]
fn a_name_that_is_not_utf8_is_refused() {
    let listing = vec![
        PackageDir { name: "ok".to_string(), files: vec!["1".to_string()] },
        PackageDir { name: "p".to_string(), files: vec!["1".to_string(), "%FF".to_string()] },
        PackageDir { name: "%C3".to_string(), files: Vec::new() },
    ];
    assert_eq!(repo().scan(&listing), Err(RepoError::BadName("%FF".to_string())));
    let listing = vec![PackageDir { name: "%C3%28".to_string(), files: vec!["%FF".to_string()] }];
    assert_eq!(repo().scan(&listing), Err(RepoError::BadName("%C3%28".to_string())));
}

#[test]
fn of_two_packages_of_one_name_the_later_is_found() {
    let listing = vec![
        PackageDir { name: "a%2Fb".to_string(), files: vec!["1".to_string()] },
        PackageDir { name: "c".to_string(), files: Vec::new() },
        PackageDir { name: "a%2fb".to_string(), files: vec!["2".to_string()] },
    ];
    let pkgs = repo().scan(&listing).unwrap();
    assert_eq!(find_package(&pkgs, "a/b"), Some(2));
    assert_eq!(find_package(&pkgs, "c"), Some(1));
    assert_eq!(find_package(&pkgs, "a%2Fb"), None);
    assert_eq!(pkgs[2].versions[0].version, "2");
}

#[test]
fn a_repository_manifest_holds_no_macro() {
    let v = Version { version: "1".to_string(), file: "/r/pkg/p/1".to_string() };
    let lines = vec![
        "# $(COMMENT) does not count".to_string(),
        "dir path=usr".to_string(),
        "file path=usr/$(ARCH)/x \\".to_string(),
        "owner=$(WHO)".to_string(),
    ];
    assert_eq!(find_unresolved(&lines), Some("ARCH".to_string()));
    let lines = vec!["dir path=usr".to_string(), "dir path=$(unclosed".to_string()];
    assert_eq!(find_unresolved(&lines), None);
    let mut reader = v.manifest(lines);
    assert_eq!(
        reader.next(),
        Some(Entry::Dir(Dir { path: "usr".to_string(), attr: Default::default() }))
    );
    assert_eq!(
        reader.next(),
        Some(Entry::Dir(Dir { path: "$(unclosed".to_string(), attr: Default::default() }))
    );
    assert_eq!(reader.next(), None);
}
