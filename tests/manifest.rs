use s3_namespace::error::InodeError;
use s3_namespace::inode::{InodeKind, ROOT_INODE};
use s3_namespace::manifest::{check_uri, create_manifest_namespace, ManifestNamespace, MANIFEST_TTL};

fn uris(list: &[&str]) -> Vec<String> {
    list.iter().map(|u| u.to_string()).collect()
}

fn child_names(ns: &ManifestNamespace, dir: u64) -> Vec<(String, InodeKind)> {
    let mut handle = ns.readdir(dir, 10).unwrap();
    let mut out = vec![];
    while let Some(entry) = handle.next(0).unwrap() {
        out.push((entry.inode.name().to_string(), entry.inode.kind()));
    }
    out
}

fn lookup_ino(ns: &mut ManifestNamespace, parent: u64, name: &str) -> u64 {
    ns.lookup(parent, name.as_bytes(), 0).unwrap().inode.ino()
}

/// Every path of the tree with its kind, walked depth first.
fn walk(ns: &ManifestNamespace, dir: u64, prefix: &str, out: &mut Vec<(String, InodeKind, u64)>) {
    let mut handle = ns.readdir(dir, 10).unwrap();
    while let Some(entry) = handle.next(0).unwrap() {
        let path = format!("{}/{}", prefix, entry.inode.name());
        out.push((path.clone(), entry.inode.kind(), entry.inode.ino()));
        if entry.inode.kind() == InodeKind::Directory {
            walk(ns, entry.inode.ino(), &path, out);
        }
    }
}

#[test]
fn smoke() {
    let uris = vec![
        "s3://bucket/key1",
        "s3://bucket/key2/a",
        "s3://bucket/key2/b",
        "s3://bucket/key3",
        "s3://bucket/key4/a/b",
        "s3://bucket/key4/a/c",
    ];

    let namespace = ManifestNamespace::new(uris.iter().map(|u| u.to_string()).collect());

    println!("{namespace:#?}");
}

#[test]
fn root_holds_the_keys_as_a_tree() {
    let mut ns = ManifestNamespace::new(uris(&[
        "s3://bucket/key1",
        "s3://bucket/key2/a",
        "s3://bucket/key2/b",
        "s3://bucket/key3",
        "s3://bucket/key4/a/b",
        "s3://bucket/key4/a/c",
    ]));
    assert_eq!(
        child_names(&ns, ROOT_INODE),
        vec![
            ("key1".to_string(), InodeKind::File),
            ("key2".to_string(), InodeKind::Directory),
            ("key3".to_string(), InodeKind::File),
            ("key4".to_string(), InodeKind::Directory),
        ]
    );
    let key2 = lookup_ino(&mut ns, ROOT_INODE, "key2");
    assert_eq!(
        child_names(&ns, key2),
        vec![("a".to_string(), InodeKind::File), ("b".to_string(), InodeKind::File)]
    );
    let key4 = lookup_ino(&mut ns, ROOT_INODE, "key4");
    assert_eq!(child_names(&ns, key4), vec![("a".to_string(), InodeKind::Directory)]);
    let a = lookup_ino(&mut ns, key4, "a");
    assert_eq!(
        child_names(&ns, a),
        vec![("b".to_string(), InodeKind::File), ("c".to_string(), InodeKind::File)]
    );
    let b = ns.lookup(a, b"b", 0).unwrap();
    assert_eq!(b.inode.full_key(), "key4/a/b");
    assert_eq!(b.inode.parent(), a);
    assert_eq!(b.stat.size, 1024);
    assert_eq!(b.stat.etag.as_deref(), Some("not real"));
    assert!(b.inode.is_remote());
}

#[test]
fn inode_numbers_follow_path_order() {
    let ns = ManifestNamespace::new(uris(&["s3://b/z", "s3://b/a/y", "s3://b/a/x"]));
    let mut all = vec![];
    walk(&ns, ROOT_INODE, "", &mut all);
    assert_eq!(
        all,
        vec![
            ("/a".to_string(), InodeKind::Directory, 2),
            ("/a/x".to_string(), InodeKind::File, 3),
            ("/a/y".to_string(), InodeKind::File, 4),
            ("/z".to_string(), InodeKind::File, 5),
        ]
    );
}

#[test]
fn construction_ignores_order_and_repeats() {
    let first = ManifestNamespace::new(uris(&[
        "s3://b/x/1",
        "s3://b/y",
        "s3://b/x",
        "s3://b/x/2/3",
    ]));
    let second = ManifestNamespace::new(uris(&[
        "s3://b/x/2/3",
        "s3://b/x",
        "s3://b/y",
        "s3://b/x/1",
        "s3://b/y",
    ]));
    let mut a = vec![];
    let mut b = vec![];
    walk(&first, ROOT_INODE, "", &mut a);
    walk(&second, ROOT_INODE, "", &mut b);
    assert_eq!(a, b);
    assert_eq!(format!("{first:?}"), format!("{second:?}"));
}

#[test]
fn directory_shadows_file_in_either_order() {
    for list in [["s3://b/a/b", "s3://b/a"], ["s3://b/a", "s3://b/a/b"]] {
        let mut ns = ManifestNamespace::new(uris(&list));
        assert_eq!(child_names(&ns, ROOT_INODE), vec![("a".to_string(), InodeKind::Directory)]);
        let a = lookup_ino(&mut ns, ROOT_INODE, "a");
        assert_eq!(child_names(&ns, a), vec![("b".to_string(), InodeKind::File)]);
    }
}

#[test]
fn invalid_names_hide_what_lies_below() {
    let mut ns = ManifestNamespace::new(uris(&[
        "s3://b/x/./y",
        "s3://b/x/z",
        "s3://b/w/..",
        "s3://b/v//u",
        "s3://b/t/nul\0name",
        "s3://b/only/./deep",
    ]));
    assert_eq!(
        child_names(&ns, ROOT_INODE),
        vec![
            ("only".to_string(), InodeKind::Directory),
            ("t".to_string(), InodeKind::Directory),
            ("v".to_string(), InodeKind::Directory),
            ("w".to_string(), InodeKind::Directory),
            ("x".to_string(), InodeKind::Directory),
        ]
    );
    let x = lookup_ino(&mut ns, ROOT_INODE, "x");
    assert_eq!(child_names(&ns, x), vec![("z".to_string(), InodeKind::File)]);
    let only = lookup_ino(&mut ns, ROOT_INODE, "only");
    assert_eq!(child_names(&ns, only), vec![]);
    let w = lookup_ino(&mut ns, ROOT_INODE, "w");
    assert_eq!(child_names(&ns, w), vec![]);
}

#[test]
fn empty_manifest_has_only_the_root() {
    let ns = ManifestNamespace::new(vec![]);
    assert_eq!(child_names(&ns, ROOT_INODE), vec![]);
    let root = ns.getattr(ROOT_INODE, false, 0).unwrap();
    assert_eq!(root.inode.parent(), ROOT_INODE);
    assert_eq!(root.inode.kind(), InodeKind::Directory);
    assert_eq!(root.stat.size, 0);
    assert_eq!(root.stat.etag, None);
}

#[test]
fn lookup_errors() {
    let mut ns = ManifestNamespace::new(uris(&["s3://b/dir/file"]));
    assert!(matches!(ns.lookup(7, b"dir", 0), Err(InodeError::InodeDoesNotExist(7))));
    assert!(matches!(ns.lookup(0, b"dir", 0), Err(InodeError::InodeDoesNotExist(0))));
    let dir = lookup_ino(&mut ns, ROOT_INODE, "dir");
    let file = lookup_ino(&mut ns, dir, "file");
    match ns.lookup(file, b"x", 0) {
        Err(InodeError::NotADirectory(d)) => assert_eq!(d, format!("{} (full key {:?})", file, "dir/file")),
        other => panic!("unexpected {other:?}"),
    }
    match ns.lookup(ROOT_INODE, b"missing", 0) {
        Err(InodeError::FileDoesNotExist(name, d)) => {
            assert_eq!(name, "missing");
            assert_eq!(d, "1 (full key \"\")");
        }
        other => panic!("unexpected {other:?}"),
    }
    match ns.lookup(ROOT_INODE, &[0x66, 0xff, 0x6f], 0) {
        Err(InodeError::InvalidFileName(bytes)) => assert_eq!(bytes, vec![0x66, 0xff, 0x6f]),
        other => panic!("unexpected {other:?}"),
    }
}

#[test]
fn lookup_counts_go_up_and_forget_never_fails() {
    let mut ns = ManifestNamespace::new(uris(&["s3://b/f"]));
    let f = lookup_ino(&mut ns, ROOT_INODE, "f");
    assert_eq!(ns.lookup_count(f), 1);
    lookup_ino(&mut ns, ROOT_INODE, "f");
    assert_eq!(ns.lookup_count(f), 2);
    let mut handle = ns.readdir(ROOT_INODE, 1).unwrap();
    let entry = handle.next(0).unwrap().unwrap();
    handle.remember(&mut ns, &entry);
    assert_eq!(ns.lookup_count(f), 3);
    assert!(ns.forget(f, 2).is_ok());
    assert_eq!(ns.lookup_count(f), 1);
    assert!(ns.forget(f, 5).is_ok());
    assert_eq!(ns.lookup_count(f), 0);
    assert!(ns.forget(f, 1).is_ok());
    assert_eq!(ns.lookup_count(f), 0);
    assert!(ns.forget(99, 1).is_ok());
    assert_eq!(ns.lookup_count(99), 0);
    let _ = ns.lookup(ROOT_INODE, b"missing", 0);
    assert_eq!(ns.lookup_count(ROOT_INODE), 0);
}

#[test]
fn readdir_hands_out_every_child_once_despite_readds() {
    let names: Vec<String> = (0..7).map(|i| format!("s3://b/f{i}")).collect();
    let ns = ManifestNamespace::new(names);
    let mut handle = ns.readdir(ROOT_INODE, 3).unwrap();
    assert_eq!(handle.parent(), ROOT_INODE);
    let mut delivered = vec![];
    let mut round = 0;
    loop {
        let mut page = 0;
        let mut done = false;
        while page < 3 {
            match handle.next(0).unwrap() {
                Some(entry) => {
                    if page == 2 && round % 2 == 0 {
                        handle.readd(entry);
                        break;
                    }
                    delivered.push(entry.inode.name().to_string());
                    page += 1;
                }
                None => {
                    done = true;
                    break;
                }
            }
        }
        round += 1;
        if done {
            break;
        }
    }
    let expected: Vec<String> = (0..7).map(|i| format!("f{i}")).collect();
    assert_eq!(delivered, expected);
    assert!(handle.next(0).unwrap().is_none());
    assert!(handle.next(0).unwrap().is_none());
}

#[test]
fn readdir_errors() {
    let mut ns = ManifestNamespace::new(uris(&["s3://b/f"]));
    assert!(matches!(ns.readdir(5, 1), Err(InodeError::InodeDoesNotExist(5))));
    let f = lookup_ino(&mut ns, ROOT_INODE, "f");
    assert!(matches!(ns.readdir(f, 1), Err(InodeError::NotADirectory(_))));
}

#[test]
fn nothing_can_be_written() {
    let ns = ManifestNamespace::new(uris(&["s3://b/f"]));
    let first = ns.create(ROOT_INODE, b"new", InodeKind::File);
    let second = ns.create(ROOT_INODE, b"new", InodeKind::File);
    assert!(matches!(first, Err(InodeError::InodeNotWritable(_))));
    assert!(matches!(second, Err(InodeError::InodeNotWritable(_))));
    assert!(matches!(ns.create(9, b"new", InodeKind::Directory), Err(InodeError::InodeDoesNotExist(9))));
    assert!(matches!(ns.setattr(2, None, None), Err(InodeError::InodeNotWritable(_))));
    assert!(matches!(ns.unlink(ROOT_INODE, b"f"), Err(InodeError::InodeNotWritable(_))));
    assert!(matches!(ns.rmdir(ROOT_INODE, b"f"), Err(InodeError::InodeNotWritable(_))));
    assert!(matches!(ns.write(2, true, false), Err(InodeError::InodeNotWritable(_))));
    assert!(matches!(ns.write(3, true, false), Err(InodeError::InodeDoesNotExist(3))));
    assert!(ns.read(2).unwrap().finish().is_ok());
    assert!(matches!(ns.read(3), Err(InodeError::InodeDoesNotExist(3))));
}

#[test]
fn stats_expire_after_a_thousand_days() {
    let ns = ManifestNamespace::new(uris(&["s3://b/f"]));
    let looked = ns.getattr(2, true, 5).unwrap();
    assert_eq!(looked.stat.expiry.deadline, 5 + MANIFEST_TTL);
    assert_eq!(MANIFEST_TTL, 1000 * 24 * 60 * 60 * 1_000_000_000);
    assert!(looked.stat.is_valid(5));
    assert!(!looked.stat.is_valid(5 + MANIFEST_TTL));
    assert_eq!(looked.validity(10), MANIFEST_TTL - 5);
    assert_eq!(looked.validity(u64::MAX), 0);
    let late = ns.getattr(2, false, u64::MAX - 1).unwrap();
    assert_eq!(late.stat.expiry.deadline, u64::MAX);
    let mut stat = looked.stat.clone();
    stat.set_validity(100, 7);
    assert_eq!(stat.expiry.deadline, 107);
    assert_eq!(stat.size, 1024);
    assert_eq!(stat.mtime.unix_seconds, 0);
}

#[test]
fn uris_are_checked() {
    assert!(check_uri("s3://bucket/key"));
    assert!(check_uri("s3://bucket/"));
    assert!(!check_uri("s3://bucket"));
    assert!(!check_uri("http://bucket/key"));
    assert!(!check_uri("s3:/"));
    assert!(ManifestNamespace::from_uris(uris(&["s3://b/k", "bad"])).is_none());
    assert!(ManifestNamespace::from_uris(uris(&["s3://b/k"])).is_some());
    let mut giab = create_manifest_namespace();
    let readme = giab.lookup(ROOT_INODE, b"README.s3_structure", 0).unwrap();
    assert_eq!(readme.inode.full_key(), "README.s3_structure");
    assert_eq!(child_names(&giab, ROOT_INODE).len(), 4);
}

#[test]
fn inode_kinds_name_themselves() {
    assert_eq!(InodeKind::File.as_str(), "file");
    assert_eq!(InodeKind::Directory.as_str(), "directory");
}

#[test]
fn refused_create_and_unlink_leave_the_tree_as_it_was() {
    let mut ns = ManifestNamespace::new(uris(&[
        "s3://bucket/key1",
        "s3://bucket/key2/a",
        "s3://bucket/key2/b",
        "s3://bucket/key3",
        "s3://bucket/key4/a/b",
        "s3://bucket/key4/a/c",
    ]));
    let mut before = vec![];
    walk(&ns, ROOT_INODE, "", &mut before);
    assert!(matches!(ns.create(ROOT_INODE, b"key5", InodeKind::File), Err(InodeError::InodeNotWritable(_))));
    assert!(matches!(ns.unlink(ROOT_INODE, b"key5"), Err(InodeError::InodeNotWritable(_))));
    let mut after = vec![];
    walk(&ns, ROOT_INODE, "", &mut after);
    assert_eq!(before, after);
    assert!(matches!(ns.lookup(ROOT_INODE, b"key5", 0), Err(InodeError::FileDoesNotExist(_, _))));
}
