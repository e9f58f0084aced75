use mf2tar::archive::{
    align_block, content_of, is_excluded, is_wanted, make_header, plan_record, resume_offset,
    tree_file_record, ArchiveError, Content, ContentSource, Record, RecordKind,
};
use mf2tar::pkgmf::parse_entry;

#[test]
fn resume_after_payload_ending_at_513_is_1024() {
    assert_eq!(resume_offset(Some((512, 1))), Some(1024));
    assert_eq!(resume_offset(Some((1, 512))), Some(1024));
    assert_eq!(align_block(513), Some(1024));
}

#[test]
fn resume_of_an_archive_without_records_is_zero() {
    assert_eq!(resume_offset(None), Some(0));
}

#[test]
fn resume_on_a_block_boundary_stays() {
    assert_eq!(resume_offset(Some((512, 0))), Some(512));
    assert_eq!(resume_offset(Some((512, 512))), Some(1024));
    assert_eq!(resume_offset(Some((512, 511))), Some(1024));
    assert_eq!(resume_offset(Some((0, 0))), Some(0));
    assert_eq!(align_block(1), Some(512));
}

#[test]
fn resume_that_does_not_fit_is_none() {
    assert_eq!(resume_offset(Some((u64::MAX, 1))), None);
    assert_eq!(resume_offset(Some((u64::MAX - 5, 2))), None);
    assert_eq!(align_block(u64::MAX), None);
    assert_eq!(align_block(u64::MAX - 511), Some(u64::MAX - 511));
}

#[test]
fn exclusion_is_a_plain_prefix_test() {
    let excludes = vec!["etc/".to_string()];
    assert!(is_excluded("etc/passwd", &excludes));
    assert!(!is_excluded("etcetera/x", &excludes));
    assert!(!is_excluded("etc", &excludes));
    assert!(!is_excluded("usr/etc/passwd", &excludes));
    assert!(!is_excluded("etc/passwd", &Vec::new()));
    let two = vec!["usr/".to_string(), "etc".to_string()];
    assert!(is_excluded("etcetera/x", &two));
    assert!(is_excluded("usr/bin", &two));
    assert!(!is_excluded("bin/usr/", &two));
}

#[test]
fn wanted_entries_have_a_path_that_is_not_excluded() {
    let excludes = vec!["etc/".to_string()];
    assert!(!is_wanted(&parse_entry("file path=etc/passwd"), &excludes));
    assert!(is_wanted(&parse_entry("file path=etcetera/x"), &excludes));
    assert!(is_wanted(&parse_entry("dir path=bin"), &excludes));
    assert!(!is_wanted(&parse_entry("<include x>"), &excludes));
    assert!(!is_wanted(&parse_entry("junk"), &excludes));
}

#[test]
fn records_by_kind() {
    assert_eq!(
        plan_record(&parse_entry("dir path=bin mode=0700"), 99, 1234),
        Some(Record {
            kind: RecordKind::Directory,
            path: "bin".to_string(),
            mode: 0o755,
            mtime: 1234,
            size: 0,
            link_target: None,
        })
    );
    assert_eq!(
        plan_record(&parse_entry("file path=bin/ls"), 99, 1234),
        Some(Record {
            kind: RecordKind::Regular,
            path: "bin/ls".to_string(),
            mode: 0o644,
            mtime: 1234,
            size: 99,
            link_target: None,
        })
    );
    assert_eq!(
        plan_record(&parse_entry("link path=bin/sh target=ksh"), 99, 1234),
        Some(Record {
            kind: RecordKind::Symlink,
            path: "bin/sh".to_string(),
            mode: 0o777,
            mtime: 1234,
            size: 0,
            link_target: Some("ksh".to_string()),
        })
    );
    assert_eq!(plan_record(&parse_entry("<include a.inc>"), 99, 1234), None);
    assert_eq!(plan_record(&parse_entry("junk"), 99, 1234), None);
}

#[test]
fn content_comes_from_the_chosen_source() {
    let tree = ContentSource::Tree("/proto".to_string());
    let repo = ContentSource::Repository;
    let plain = parse_entry("file path=bin/ls");
    let stored = parse_entry("file 0a0b chash=0c0d path=bin/ls");
    assert_eq!(content_of(&tree, &plain), Ok(Content::TreeFile("/proto/bin/ls".to_string())));
    assert_eq!(
        content_of(&ContentSource::Tree("/proto/".to_string()), &plain),
        Ok(Content::TreeFile("/proto/bin/ls".to_string()))
    );
    assert_eq!(
        content_of(&repo, &stored),
        Ok(Content::Blob { cname: "0a0b".to_string(), chash: "0c0d".to_string() })
    );
    assert_eq!(
        content_of(&repo, &plain),
        Err(ArchiveError::NoContentId("bin/ls".to_string()))
    );
    assert_eq!(
        content_of(&repo, &parse_entry("file 0a0b path=bin/ls")),
        Err(ArchiveError::NoContentId("bin/ls".to_string()))
    );
    assert_eq!(
        content_of(&tree, &parse_entry("file path=/etc/motd")),
        Ok(Content::TreeFile("/etc/motd".to_string()))
    );
    assert_eq!(
        content_of(&ContentSource::Tree("".to_string()), &plain),
        Ok(Content::TreeFile("bin/ls".to_string()))
    );
    assert_eq!(content_of(&tree, &parse_entry("dir path=bin")), Ok(Content::Empty));
    assert_eq!(content_of(&repo, &parse_entry("link path=a target=b")), Ok(Content::Empty));
}

#[test]
fn what_is_no_regular_file_is_refused() {
    let e = parse_entry("file path=dev/null");
    assert_eq!(
        tree_file_record(&e, "/proto/dev/null", false, 0, 7),
        Err(ArchiveError::NotAFile("/proto/dev/null".to_string()))
    );
    assert_eq!(
        tree_file_record(&e, "/proto/dev/null", true, 42, 7),
        Ok(Some(Record {
            kind: RecordKind::Regular,
            path: "dev/null".to_string(),
            mode: 0o644,
            mtime: 7,
            size: 42,
            link_target: None,
        }))
    );
}

#[test]
fn headers_state_their_record() {
    let rec = plan_record(&parse_entry("file path=usr/bin/ls"), 1234, 1600000000).unwrap();
    let h = make_header(&rec).unwrap();
    assert_eq!(h.path().unwrap().to_str(), Some("usr/bin/ls"));
    assert_eq!(h.entry_type(), tar::EntryType::Regular);
    assert_eq!(h.mode().unwrap(), 0o644);
    assert_eq!(h.size().unwrap(), 1234);
    assert_eq!(h.mtime().unwrap(), 1600000000);
    assert!(h.link_name().unwrap().is_none());
    assert!(h.as_ustar().is_some());

    let mut same = tar::Header::new_ustar();
    same.set_entry_type(tar::EntryType::Regular);
    same.set_path("usr/bin/ls").unwrap();
    same.set_mode(0o644);
    same.set_mtime(1600000000);
    same.set_size(1234);
    same.set_cksum();
    assert_eq!(&h.as_bytes()[..], &same.as_bytes()[..]);

    let rec = plan_record(&parse_entry("link path=bin/sh target=ksh93"), 5, 77).unwrap();
    let h = make_header(&rec).unwrap();
    assert_eq!(h.entry_type(), tar::EntryType::Symlink);
    assert_eq!(h.mode().unwrap(), 0o777);
    assert_eq!(h.size().unwrap(), 0);
    assert_eq!(h.mtime().unwrap(), 77);
    assert_eq!(h.link_name().unwrap().unwrap().to_str(), Some("ksh93"));
    let sum = h.cksum().unwrap();
    let mut again = h.clone();
    again.set_cksum();
    assert_eq!(again.cksum().unwrap(), sum);

    let rec = plan_record(&parse_entry("dir path=usr/lib"), 5, 77).unwrap();
    let h = make_header(&rec).unwrap();
    assert_eq!(h.entry_type(), tar::EntryType::Directory);
    assert_eq!(h.mode().unwrap(), 0o755);
    assert_eq!(h.size().unwrap(), 0);
}

#[test]
fn headers_refuse_what_does_not_fit() {
    let long = "a".repeat(300);
    let rec = Record {
        kind: RecordKind::Regular,
        path: long.clone(),
        mode: 0o644,
        mtime: 0,
        size: 0,
        link_target: None,
    };
    assert!(matches!(make_header(&rec), Err(ArchiveError::PathRefused(_))));
    let rec = Record {
        kind: RecordKind::Symlink,
        path: "l".to_string(),
        mode: 0o777,
        mtime: 0,
        size: 0,
        link_target: Some(long.clone()),
    };
    assert!(matches!(make_header(&rec), Err(ArchiveError::LinkRefused(_))));
    let rec = Record {
        kind: RecordKind::Symlink,
        path: long.clone(),
        mode: 0o777,
        mtime: 0,
        size: 0,
        link_target: Some(long),
    };
    assert!(matches!(make_header(&rec), Err(ArchiveError::PathRefused(_))));
}

#[test]
fn headers_hold_what_their_fields_have_room_for() {
    let mut rec = Record {
        kind: RecordKind::Regular,
        path: "./usr/./bin//ls".to_string(),
        mode: 0o12345671234,
        mtime: u64::MAX,
        size: 1 << 40,
        link_target: None,
    };
    let h = make_header(&rec).unwrap();
    assert_eq!(h.mode().unwrap(), 0o12345671234 % 0o10000000);
    assert_eq!(h.mode().unwrap(), 0o5671234);
    assert_eq!(h.size().unwrap(), 1 << 40);
    assert_eq!(h.entry_size().unwrap(), 1 << 40);
    assert_eq!(h.mtime().unwrap(), u64::MAX);
    assert_eq!(h.path().unwrap().to_str(), Some("usr/bin/ls"));
    assert_eq!(h.as_bytes()[156], b'0');
    assert!(h.link_name().unwrap().is_none());

    rec.mode = 0o7777777;
    rec.size = (1 << 33) - 1;
    rec.mtime = 1 << 33;
    rec.kind = RecordKind::Directory;
    let h = make_header(&rec).unwrap();
    assert_eq!(h.mode().unwrap(), 0o7777777);
    assert_eq!(h.size().unwrap(), (1 << 33) - 1);
    assert_eq!(h.mtime().unwrap(), 1 << 33);
    assert_eq!(h.as_bytes()[156], b'5');

    rec.kind = RecordKind::Symlink;
    rec.mode = 0o10000000;
    rec.link_target = Some("./a/../b".to_string());
    let h = make_header(&rec).unwrap();
    assert_eq!(h.mode().unwrap(), 0);
    assert_eq!(h.as_bytes()[156], b'2');
    assert_eq!(h.link_name().unwrap().unwrap().to_str(), Some("./a/../b"));
    assert_eq!(h.path().unwrap().to_str(), Some("usr/bin/ls"));
    let sum = h.cksum().unwrap();
    let mut again = h.clone();
    again.set_cksum();
    assert_eq!(again.cksum().unwrap(), sum);
    assert_eq!(&again.as_bytes()[..], &h.as_bytes()[..]);
}

#[test]
fn headers_refuse_paths_that_leave_the_archive() {
    let rec = |path: &str, link: Option<&str>| Record {
        kind: RecordKind::Symlink,
        path: path.to_string(),
        mode: 0o777,
        mtime: 0,
        size: 0,
        link_target: link.map(|l| l.to_string()),
    };
    assert!(matches!(make_header(&rec("/etc/passwd", None)), Err(ArchiveError::PathRefused(_))));
    assert!(matches!(make_header(&rec("a/../b", None)), Err(ArchiveError::PathRefused(_))));
    assert!(matches!(make_header(&rec("", None)), Err(ArchiveError::PathRefused(_))));
    assert!(matches!(make_header(&rec("a", Some(""))), Err(ArchiveError::LinkRefused(_))));
    assert!(make_header(&rec("a", Some("/abs/../x"))).is_ok());
}
