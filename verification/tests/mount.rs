use sim_ledger::mount::{prefixed_path, ModelMount, MountEntry, MountErrorKind};

fn path(parts: &[&str]) -> Vec<String> {
    parts.iter().map(|p| (*p).to_owned()).collect()
}

#[test]
fn read_gives_back_what_was_stored() {
    let mut mount = ModelMount::new("cli-model");
    assert_eq!(mount.label(), "cli-model");
    assert_eq!(mount.read(&path(&["set.json"])).unwrap_err().kind, MountErrorKind::NotFound);
    mount.replace(&path(&["set.json"]), b"v1", false).unwrap();
    mount.replace(&path(&["years", "year-2024.sqlite"]), b"year", false).unwrap();
    assert_eq!(mount.read(&path(&["set.json"])).unwrap(), b"v1".to_vec());
    mount.replace(&path(&["set.json"]), b"version two", false).unwrap();
    assert_eq!(mount.read(&path(&["set.json"])).unwrap(), b"version two".to_vec());
    assert_eq!(mount.read(&path(&["years", "year-2024.sqlite"])).unwrap(), b"year".to_vec());
    assert_eq!(
        mount.metadata(&path(&["set.json"])),
        Some(MountEntry { name: "set.json".to_owned(), len: 11 })
    );
    assert_eq!(mount.metadata(&path(&["nothing"])), None);
}

#[test]
fn cancelled_replace_changes_nothing() {
    let mut mount = ModelMount::new("m");
    mount.replace(&path(&["a"]), b"kept", false).unwrap();
    let err = mount.replace(&path(&["a"]), b"lost", true).unwrap_err();
    assert_eq!(err.kind, MountErrorKind::Cancelled);
    assert_eq!(mount.read(&path(&["a"])).unwrap(), b"kept".to_vec());
}

#[test]
fn list_names_direct_children_in_order() {
    let mut mount = ModelMount::new("m");
    mount.replace(&path(&["years", "b"]), b"22", false).unwrap();
    mount.replace(&path(&["years", "a"]), b"1", false).unwrap();
    mount.replace(&path(&["years", "deep", "c"]), b"333", false).unwrap();
    mount.replace(&path(&["top"]), b"", false).unwrap();
    assert_eq!(
        mount.list(&path(&["years"])),
        vec![MountEntry { name: "a".to_owned(), len: 1 }, MountEntry { name: "b".to_owned(), len: 2 }]
    );
    assert_eq!(mount.list(&path(&[])), vec![MountEntry { name: "top".to_owned(), len: 0 }]);
    assert!(mount.list(&path(&["missing"])).is_empty());
}

#[test]
fn removal_of_files_and_directories() {
    let mut mount = ModelMount::new("m");
    mount.replace(&path(&["years", "a"]), b"1", false).unwrap();
    mount.replace(&path(&["years", "deep", "c"]), b"3", false).unwrap();
    mount.replace(&path(&["yearsx"]), b"4", false).unwrap();
    mount.replace(&path(&["set.json"]), b"5", false).unwrap();

    assert_eq!(mount.remove_file(&path(&["nope"])).unwrap_err().kind, MountErrorKind::NotFound);
    mount.remove_file(&path(&["set.json"])).unwrap();
    assert!(mount.read(&path(&["set.json"])).is_err());

    mount.remove_dir_all(&path(&["years"]));
    assert!(mount.read(&path(&["years", "a"])).is_err());
    assert!(mount.read(&path(&["years", "deep", "c"])).is_err());
    assert_eq!(mount.read(&path(&["yearsx"])).unwrap(), b"4".to_vec());
}

#[test]
fn prefixed_paths_join_components() {
    assert_eq!(prefixed_path(&path(&["books"]), &path(&["years", "a"])), path(&["books", "years", "a"]));
    assert_eq!(prefixed_path(&path(&[]), &path(&["x"])), path(&["x"]));
}

#[test]
fn missing_file_is_reported_as_not_found() {
    let mut mount = ModelMount::new("m");
    let err = mount.read(&path(&["absent"])).unwrap_err();
    assert_eq!(err.kind, MountErrorKind::NotFound);
    assert_eq!(err.message, "model entry not found");
    let err = mount.remove_file(&path(&["absent"])).unwrap_err();
    assert_eq!(err.message, "model entry not found");
}
