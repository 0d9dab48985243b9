use nix_user_chroot::identity::identity_map;
use nix_user_chroot::setup::{EntryKind, HostEntry, OnFailure, RunChroot, SetupStep};

fn entry(name: &str, kind: EntryKind) -> HostEntry {
    HostEntry { name: name.as_bytes().to_vec(), kind }
}

fn path_of(step: &SetupStep) -> Option<Vec<u8>> {
    match step {
        SetupStep::CreateDir { path, .. } => Some(path.clone()),
        SetupStep::CreateFile { path } => Some(path.clone()),
        SetupStep::BindMount { dest, .. } => Some(dest.clone()),
        SetupStep::CopySymlink { dest, .. } => Some(dest.clone()),
        _ => None,
    }
}

#[test]
fn directory_entry_gets_mount_point_and_bind() {
    let root = RunChroot::new(b"/tmp/nix-chroot.abc123");
    let steps = root.bind_mount_direntry(&entry("usr", EntryKind::Directory));
    assert_eq!(steps.len(), 2);
    match &steps[0] {
        SetupStep::CreateDir { path, existing_ok } => {
            assert_eq!(path.as_slice(), b"/tmp/nix-chroot.abc123/usr");
            assert!(*existing_ok);
        }
        other => panic!("unexpected step {:?}", other),
    }
    match &steps[1] {
        SetupStep::BindMount { source, dest, required } => {
            assert_eq!(source.as_slice(), b"/usr");
            assert_eq!(dest.as_slice(), b"/tmp/nix-chroot.abc123/usr");
            assert!(!*required);
        }
        other => panic!("unexpected step {:?}", other),
    }
    assert_eq!(steps[1].on_failure(), OnFailure::Warn);
}

#[test]
fn file_entry_gets_placeholder_and_bind() {
    let root = RunChroot::new(b"/r/");
    let steps = root.bind_mount_direntry(&entry("vmlinuz", EntryKind::File));
    assert_eq!(steps.len(), 2);
    match &steps[0] {
        SetupStep::CreateFile { path } => assert_eq!(path.as_slice(), b"/r/vmlinuz"),
        other => panic!("unexpected step {:?}", other),
    }
    assert!(matches!(&steps[1], SetupStep::BindMount { source, .. } if source.as_slice() == b"/vmlinuz"));
    assert_eq!(steps[0].on_failure(), OnFailure::Abort);
}

#[test]
fn symlink_entry_is_recreated() {
    let root = RunChroot::new(b"/r");
    let steps = root.bind_mount_direntry(&entry("lib64", EntryKind::Symlink));
    assert_eq!(steps.len(), 1);
    match &steps[0] {
        SetupStep::CopySymlink { source, dest } => {
            assert_eq!(source.as_slice(), b"/lib64");
            assert_eq!(dest.as_slice(), b"/r/lib64");
        }
        other => panic!("unexpected step {:?}", other),
    }
}

#[test]
fn other_kinds_and_reserved_name_are_skipped() {
    let root = RunChroot::new(b"/r");
    assert!(root.bind_mount_direntry(&entry("fifo", EntryKind::Other)).is_empty());
    assert!(root.bind_mount_direntry(&entry("nix", EntryKind::Directory)).is_empty());
    assert!(root.bind_mount_direntry(&entry("nix", EntryKind::Symlink)).is_empty());
    assert_eq!(root.bind_mount_direntry(&entry("nixos", EntryKind::Directory)).len(), 2);
}

#[test]
fn every_mirrorable_entry_appears_in_the_plan() {
    let root = RunChroot::new(b"/r");
    let entries = vec![
        entry("bin", EntryKind::Symlink),
        entry("etc", EntryKind::Directory),
        entry("swap", EntryKind::File),
        entry("nix", EntryKind::Directory),
        entry("sock", EntryKind::Other),
    ];
    let plan = root.setup_plan(&entries, b"/home/u/.local/store", b"/home/u", 1000, 100);
    for name in ["bin", "etc", "swap"] {
        let want = format!("/r/{}", name).into_bytes();
        assert!(plan.iter().any(|s| path_of(s) == Some(want.clone())), "{} missing", name);
    }
    assert!(!plan.iter().any(|s| path_of(s) == Some(b"/r/sock".to_vec())));
}

#[test]
fn reserved_name_backed_only_by_supplied_store() {
    let root = RunChroot::new(b"/r");
    let entries = vec![entry("nix", EntryKind::Directory), entry("usr", EntryKind::Directory)];
    let plan = root.setup_plan(&entries, b"/home/u/.local/store", b"/", 0, 0);
    let at_store: Vec<&SetupStep> =
        plan.iter().filter(|s| path_of(s) == Some(b"/r/nix".to_vec())).collect();
    assert_eq!(at_store.len(), 2);
    match at_store[0] {
        SetupStep::CreateDir { existing_ok, .. } => assert!(!*existing_ok),
        other => panic!("unexpected step {:?}", other),
    }
    match at_store[1] {
        SetupStep::BindMount { source, required, .. } => {
            assert_eq!(source.as_slice(), b"/home/u/.local/store");
            assert!(*required);
            assert_eq!(at_store[1].on_failure(), OnFailure::Abort);
        }
        other => panic!("unexpected step {:?}", other),
    }
}

#[test]
fn identity_map_text() {
    assert_eq!(identity_map(1000), b"1000 1000 1".to_vec());
    assert_eq!(identity_map(0), b"0 0 1".to_vec());
    assert_eq!(identity_map(u32::MAX), b"4294967295 4294967295 1".to_vec());
}

#[test]
fn plan_enters_root_and_maps_ids_once() {
    let root = RunChroot::new(b"/r");
    let plan = root.setup_plan(&Vec::new(), b"/store", b"/home/u/work", 1000, 100);
    let tail: Vec<&SetupStep> = plan.iter().skip(2).collect();
    assert_eq!(tail.len(), 6);
    assert!(matches!(tail[0], SetupStep::Chroot { path } if path.as_slice() == b"/r"));
    assert!(matches!(tail[1], SetupStep::ChangeDir { path } if path.as_slice() == b"/"));
    match tail[2] {
        SetupStep::WriteFile { path, contents, required } => {
            assert_eq!(path.as_slice(), b"/proc/self/setgroups");
            assert_eq!(contents.as_slice(), b"deny");
            assert!(!*required);
            assert_eq!(tail[2].on_failure(), OnFailure::Ignore);
        }
        other => panic!("unexpected step {:?}", other),
    }
    match tail[3] {
        SetupStep::WriteFile { path, contents, required } => {
            assert_eq!(path.as_slice(), b"/proc/self/uid_map");
            assert_eq!(contents.as_slice(), b"1000 1000 1");
            assert!(*required);
        }
        other => panic!("unexpected step {:?}", other),
    }
    match tail[4] {
        SetupStep::WriteFile { path, contents, .. } => {
            assert_eq!(path.as_slice(), b"/proc/self/gid_map");
            assert_eq!(contents.as_slice(), b"100 100 1");
        }
        other => panic!("unexpected step {:?}", other),
    }
    assert!(matches!(tail[5], SetupStep::ChangeDir { path } if path.as_slice() == b"/home/u/work"));
    let uid_writes = plan
        .iter()
        .filter(|s| matches!(s, SetupStep::WriteFile { path, .. } if path.as_slice() == b"/proc/self/uid_map"))
        .count();
    assert_eq!(uid_writes, 1);
}
