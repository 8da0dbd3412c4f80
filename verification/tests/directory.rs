use mielikki::{CurrentDir, CurrentDirError, FileCache, FileData, FileType, FsAction};

fn parts(p: &[&str]) -> Vec<String> {
    p.iter().map(|s| s.to_string()).collect()
}

fn dir_at(p: &[&str]) -> CurrentDir {
    CurrentDir::new(parts(p), FileCache::from_entries(vec![]))
}

#[test]
fn path_rendering() {
    assert_eq!(dir_at(&[]).path_string(), "/");
    assert_eq!(dir_at(&["home"]).path_string(), "/home");
    assert_eq!(dir_at(&["home", "user", "docs"]).path_string(), "/home/user/docs");
}

#[test]
fn move_to_parent_returns_the_old_path() {
    let mut dir = dir_at(&["home", "user"]);
    let old = dir.move_to_parent_dir().unwrap();
    assert_eq!(old, "/home/user");
    assert_eq!(dir.path_string(), "/home");
}

#[test]
fn move_to_parent_at_root_is_refused() {
    let mut dir = dir_at(&[]);
    assert!(matches!(
        dir.move_to_parent_dir(),
        Err(CurrentDirError::AlreadyAtRoot)
    ));
    assert_eq!(dir.path_string(), "/");
}

#[test]
fn move_to_dir_rejects_files_unless_leaving_through_parent() {
    let mut dir = dir_at(&["start"]);
    let r = dir.move_to_dir(parts(&["etc", "hosts"]), false, false);
    assert!(matches!(r, Err(CurrentDirError::CannotMoveToFile { .. })));
    assert_eq!(dir.path_string(), "/start");

    let r = dir.move_to_dir(parts(&["etc", "hosts"]), false, true);
    assert!(r.is_ok());
    assert_eq!(dir.path_string(), "/etc");

    let r = dir.move_to_dir(parts(&["var", "log"]), true, false);
    assert!(r.is_ok());
    assert_eq!(dir.path_string(), "/var/log");
}

#[test]
fn folder_name_and_listing() {
    let dir = dir_at(&["home", "user"]);
    assert_eq!(dir.get_current_folder_name().unwrap(), "user");
    assert_eq!(dir_at(&[]).get_current_folder_name().unwrap(), "/");

    let siblings = vec![
        FileData::new("a.txt", "/home/user/a.txt", FileType::File),
        FileData::new("b", "/home/user/b", FileType::Folder),
    ];
    let fd = dir.get_folder_data(siblings.clone()).unwrap();
    assert_eq!(fd.name, "user");
    assert_eq!(fd.files, siblings);
    assert!(!fd.is_at_root);
    assert!(dir_at(&[]).get_folder_data(vec![]).unwrap().is_at_root);
}

#[test]
fn search_filters_by_type_and_sorts() {
    let cache = FileCache::from_entries(vec![
        FileData::new("Thing", "/z/Thing", FileType::File),
        FileData::new("thing", "/a/thing", FileType::Folder),
        FileData::new("THING", "/m/THING", FileType::Link),
        FileData::new("other", "/other", FileType::File),
    ]);
    let dir = CurrentDir::new(parts(&[]), cache);

    let all = dir
        .search_files("thing".to_string(), true, true, true, false)
        .unwrap();
    assert_eq!(all.len(), 3);
    assert_eq!(all[0].filetype(), FileType::Folder);
    assert_eq!(all[1].filetype(), FileType::File);
    assert_eq!(all[2].filetype(), FileType::Link);

    let only_files = dir
        .search_files("thing".to_string(), true, false, false, false)
        .unwrap();
    assert_eq!(only_files.len(), 1);
    assert_eq!(only_files[0].path().as_str(), "/z/Thing");

    let miss = dir.search_files("absent".to_string(), true, true, true, false);
    assert!(matches!(miss, Err(CurrentDirError::SearchedFileNotFound)));
}

#[test]
fn create_plans_follow_the_type() {
    let dir = dir_at(&["work"]);

    match dir.plan_create_file("notes.txt", "file").unwrap() {
        FsAction::MakeFile { path } => assert_eq!(path, "/work/notes.txt"),
        other => panic!("unexpected action: {:?}", other),
    }
    match dir.plan_create_file("sub", "Folder").unwrap() {
        FsAction::MakeFolder { path } => assert_eq!(path, "/work/sub"),
        other => panic!("unexpected action: {:?}", other),
    }
    assert!(matches!(
        dir.plan_create_file("ln", "Link"),
        Err(CurrentDirError::CannotCreateFile { .. })
    ));
    assert!(matches!(
        dir.plan_create_file("x", "wat"),
        Err(CurrentDirError::CannotSerialize)
    ));
}

#[test]
fn delete_plans_follow_the_type() {
    let dir = dir_at(&[]);

    match dir.plan_delete_file("sub", "folder").unwrap() {
        FsAction::RemoveFolder { path } => assert_eq!(path, "/sub"),
        other => panic!("unexpected action: {:?}", other),
    }
    match dir.plan_delete_file("a.txt", "file").unwrap() {
        FsAction::RemoveFile { path } => assert_eq!(path, "/a.txt"),
        other => panic!("unexpected action: {:?}", other),
    }
    match dir.plan_delete_file("ln", "link").unwrap() {
        FsAction::RemoveFile { path } => assert_eq!(path, "/ln"),
        other => panic!("unexpected action: {:?}", other),
    }
    assert!(matches!(
        dir.plan_delete_file("x", "wat"),
        Err(CurrentDirError::CannotSerialize)
    ));
}

#[test]
fn refresh_through_the_directory_replaces_the_index() {
    let mut dir = CurrentDir::new(
        parts(&["home"]),
        FileCache::from_entries(vec![FileData::new("gone.txt", "/gone.txt", FileType::File)]),
    );
    assert!(dir
        .search_files("gone.txt".to_string(), true, true, true, false)
        .is_ok());

    dir.refresh_cache(vec![FileData::new("here.txt", "/here.txt", FileType::File)]);

    assert!(matches!(
        dir.search_files("gone.txt".to_string(), true, true, true, false),
        Err(CurrentDirError::SearchedFileNotFound)
    ));
    assert_eq!(dir.path_string(), "/home");
}
