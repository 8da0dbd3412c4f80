use mielikki::{CachedFile, CurrentDirError, FileData, FileType};

#[test]
fn cachedfile_from_filedata() {
    let fd = FileData::new("test", "/test/path", FileType::File);

    assert_eq!(
        CachedFile::from_filedata(fd, 1),
        CachedFile {
            id: 1,
            name: String::from("test"),
            path: String::from("/test/path"),
            filetype: String::from("File"),
        }
    )
}

#[test]
fn filedata_is_equal() {
    let some = FileData::new("asd", "/", FileType::File);
    assert_eq!(some, some);
}

#[test]
fn filedata_is_not_equal() {
    let some = FileData::new("asd", "/", FileType::File);
    let different_filetype = FileData::new("asd", "/", FileType::Folder);
    let different_name = FileData::new("asdf", "/", FileType::File);
    assert_ne!(some, different_filetype);
    assert_ne!(some, different_name);
}

#[test]
fn filedata_sorts_name_and_filetype_correctly() {
    let model = vec![
        FileData::new("a", "asd", FileType::Folder),
        FileData::new("b", "asd", FileType::Folder),
        FileData::new("a", "asd", FileType::File),
        FileData::new("b", "asd", FileType::File),
        FileData::new("a", "asd", FileType::Link),
        FileData::new("b", "asd", FileType::Link),
    ];

    let mut randomized = vec![
        FileData::new("a", "asd", FileType::File),
        FileData::new("b", "asd", FileType::Folder),
        FileData::new("b", "asd", FileType::File),
        FileData::new("b", "asd", FileType::Link),
        FileData::new("a", "asd", FileType::Link),
        FileData::new("a", "asd", FileType::Folder),
    ];

    mielikki::sort_entries(&mut randomized);
    assert_eq!(model, randomized);
}

#[test]
fn filetype_orders_correctly() {
    let mut randomized = vec![FileType::Link, FileType::Folder, FileType::File];

    let model = vec![FileType::Folder, FileType::File, FileType::Link];

    randomized.sort_unstable();

    assert_eq!(randomized, model)
}

#[test]
fn filetype_from_string() {
    let file = "File";
    let folder = "FolDEr";
    let link = "link";

    assert_eq!(FileType::File, FileType::parse(file).unwrap());
    assert_eq!(FileType::Folder, FileType::parse(folder).unwrap());
    assert_eq!(FileType::Link, FileType::parse(link).unwrap());
}

#[test]
#[should_panic]
fn filetype_from_garbage() {
    let something = "not valid";
    FileType::parse(something).unwrap();
}

#[test]
fn filedata_from_cachedfile() {
    let test = CachedFile {
        id: 1,
        name: String::from("test"),
        path: String::from("/some/test/path"),
        filetype: String::from("Folder"),
    };

    assert_eq!(
        FileData::new("test", "/some/test/path", FileType::Folder),
        FileData::try_from_cached(&test).unwrap()
    )
}

#[test]
fn filedata_from_cachedfile_bad_type_is_rejected() {
    let test = CachedFile {
        id: 0,
        name: String::from("x"),
        path: String::from("/x"),
        filetype: String::from("Device"),
    };
    assert!(matches!(
        FileData::try_from_cached(&test),
        Err(CurrentDirError::CannotSerialize)
    ));
}

#[test]
fn filetype_name_strings_round_trip() {
    for t in [FileType::Folder, FileType::File, FileType::Link] {
        let shown = t.name_string();
        assert_eq!(t, FileType::parse(shown.as_str()).unwrap());
    }
    assert_eq!(FileType::Folder.name_string(), "Folder");
    assert_eq!(FileType::File.name_string(), "File");
    assert_eq!(FileType::Link.name_string(), "Link");
}
