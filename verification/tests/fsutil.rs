//! Paths that must stay inside a root.
use umf_builder::fsutil::{
    copies_instead, copy_action, dir_action, ensure_source_contained, resolve_workdir,
    unlinks_leaf, CopyAction, DirAction, EntryKind, Found, PathRefusal, WalkAction, WriteWalk,
};

#[test]
fn absolute_workdir_replaces_current() {
    assert_eq!(resolve_workdir("/opt/app", "/srv"), "/srv");
    assert_eq!(resolve_workdir("/", "/a/b"), "/a/b");
}

#[test]
fn relative_workdir_joins_onto_current() {
    assert_eq!(resolve_workdir("/opt/app", "sub"), "/opt/app/sub");
    assert_eq!(resolve_workdir("/", "app"), "/app");
    assert_eq!(resolve_workdir("/a/", "b"), "/a/b");
}

#[test]
fn contained_write_creates_parents_and_returns_leaf() {
    let mut walk = WriteWalk::start("/root", "/a/b/c.txt").unwrap();
    for dir in ["/root/a", "/root/a/b"] {
        assert_eq!(walk.next().as_deref(), Some(dir));
        assert!(matches!(walk.step(Found::Missing), WalkAction::CreateDir));
    }
    assert_eq!(walk.next().as_deref(), Some("/root/a/b/c.txt"));
    assert!(matches!(walk.step(Found::Missing), WalkAction::GoOn));
    assert_eq!(walk.next(), None);
    assert_eq!(walk.destination(), "/root/a/b/c.txt");
}

#[test]
fn contained_write_rejects_intermediate_symlink_escape() {
    let mut walk = WriteWalk::start("/root", "/pwn/etc/backdoor").unwrap();
    assert_eq!(walk.next().as_deref(), Some("/root/pwn"));
    match walk.step(Found::Symlink) {
        WalkAction::Refuse(PathRefusal::Symlink { path }) => assert_eq!(path, "/root/pwn"),
        _ => panic!("a link on the way must be refused"),
    }
}

#[test]
fn contained_write_unlinks_leaf_symlink_instead_of_following() {
    let mut walk = WriteWalk::start("/root", "leaf").unwrap();
    assert_eq!(walk.next().as_deref(), Some("/root/leaf"));
    assert!(matches!(walk.step(Found::Symlink), WalkAction::Unlink));
    assert_eq!(walk.destination(), "/root/leaf");
    assert!(unlinks_leaf(Found::Symlink));
    assert!(!unlinks_leaf(Found::Other));
}

#[test]
fn contained_write_rejects_parent_traversal() {
    match WriteWalk::start("/root", "../escape") {
        Err(PathRefusal::UnsafeComponent { destination }) => {
            assert_eq!(destination, "../escape");
        }
        _ => panic!("a step up must be refused"),
    }
}

#[test]
fn copy_dir_refuses_merge_into_destination_symlink() {
    assert_eq!(dir_action(Found::Symlink), DirAction::RefuseSymlink);
    assert_eq!(dir_action(Found::Other), DirAction::RefuseNotADirectory);
    assert_eq!(dir_action(Found::Missing), DirAction::Create);
    assert_eq!(dir_action(Found::Directory), DirAction::Enter);
    assert_eq!(dir_action(Found::Unreadable), DirAction::Fail);
}

#[test]
fn an_entry_is_copied_by_its_kind() {
    assert_eq!(copy_action(EntryKind::Directory, Found::Missing), CopyAction::Recurse);
    assert_eq!(
        copy_action(EntryKind::Symlink, Found::Symlink),
        CopyAction::Link { unlink: true }
    );
    assert_eq!(copy_action(EntryKind::File, Found::Other), CopyAction::Copy { unlink: false });
    assert_eq!(copy_action(EntryKind::File, Found::Symlink), CopyAction::Copy { unlink: true });
}

#[test]
fn ensure_source_rejects_escaping_symlink() {
    match ensure_source_contained("/root", "/root/evil/shadow", "/outside/shadow") {
        Err(PathRefusal::OutsideRoot { resolved, canonical, root }) => {
            assert_eq!(resolved, "/root/evil/shadow");
            assert_eq!(canonical, "/outside/shadow");
            assert_eq!(root, "/root");
        }
        _ => panic!("a source outside its root must be refused"),
    }
    assert!(ensure_source_contained("/root", "/root/x", "/rootless/x").is_err());
}

#[test]
fn ensure_source_allows_internal_symlink() {
    assert!(ensure_source_contained("/root", "/root/link/file", "/root/real/file").is_ok());
    assert!(ensure_source_contained("/root", "/root", "/root").is_ok());
}

#[test]
fn a_tree_is_copied_where_it_cannot_be_moved() {
    assert!(copies_instead(Some(18)));
    assert!(!copies_instead(Some(13)));
    assert!(!copies_instead(None));
}
