use mielikki::{decode_records, encode_records, CachedFile, FileCache, FileData, FileType, StoreState};

fn chars_of(s: &str) -> Vec<char> {
    s.chars().collect()
}

#[test]
fn round_trip_restores_every_record() {
    let cache = FileCache::from_entries(vec![
        FileData::new("report.txt", "/a/report.txt", FileType::File),
        FileData::new("b", "/b", FileType::Folder),
        FileData::new("ln", "/c/ln", FileType::Link),
    ]);
    let records = cache.to_records();
    let artifact = encode_records(&records);
    let decoded = decode_records(&artifact).unwrap();
    assert_eq!(records, decoded);

    let reloaded = FileCache::from_records(&decoded).unwrap();
    assert_eq!(
        cache.find_file("report.txt", false),
        reloaded.find_file("report.txt", false)
    );
    assert_eq!(cache.find_file("b", true), reloaded.find_file("b", true));
    assert_eq!(cache.find_file("ln", false), reloaded.find_file("ln", false));
}

#[test]
fn round_trip_of_the_empty_index() {
    let cache = FileCache::from_entries(vec![]);
    let records = cache.to_records();
    let artifact = encode_records(&records);
    assert_eq!(artifact.len(), 0);
    let decoded = decode_records(&artifact).unwrap();
    assert_eq!(decoded.len(), 0);
    assert!(FileCache::from_records(&decoded).is_ok());
}

#[test]
fn round_trip_keeps_separators_inside_names() {
    let awkward = vec![
        CachedFile {
            id: 0,
            name: String::from("tab\there"),
            path: String::from("/new\nline"),
            filetype: String::from("File"),
        },
        CachedFile {
            id: 1,
            name: String::from("back\\slash"),
            path: String::from("/plain"),
            filetype: String::from("Folder"),
        },
    ];
    let artifact = encode_records(&awkward);
    let decoded = decode_records(&artifact).unwrap();
    assert_eq!(awkward, decoded);
}

#[test]
fn truncated_artifact_is_rejected_whole() {
    let cache = FileCache::from_entries(vec![FileData::new("a", "/a", FileType::File)]);
    let mut artifact = encode_records(&cache.to_records());
    artifact.pop();
    assert!(decode_records(&artifact).is_none());
}

#[test]
fn malformed_artifacts_are_rejected() {
    assert!(decode_records(&chars_of("no terminators at all")).is_none());
    assert!(decode_records(&chars_of("one\tfield\n")).is_none());
    assert!(decode_records(&chars_of("a\tb\tc\textra\n")).is_none());
    assert!(decode_records(&chars_of("dangling\\")).is_none());
    assert!(decode_records(&chars_of("bad\\qescape\ta\tFile\n")).is_none());
    assert!(decode_records(&chars_of("\t\t\n ")).is_none());
}

#[test]
fn decoded_escapes_are_unfolded() {
    let artifact = chars_of("a\\tb\t/p\\\\q\tFile\n");
    let decoded = decode_records(&artifact).unwrap();
    assert_eq!(decoded.len(), 1);
    assert_eq!(decoded[0].name, "a\tb");
    assert_eq!(decoded[0].path, "/p\\q");
    assert_eq!(decoded[0].filetype, "File");
    assert_eq!(decoded[0].id, 0);
}

#[test]
fn bad_type_name_fails_validation_not_decoding() {
    let artifact = chars_of("a\t/a\tDevice\n");
    let decoded = decode_records(&artifact).unwrap();
    assert!(FileCache::from_records(&decoded).is_err());
}

#[test]
fn crash_between_stage_and_commit_keeps_old_artifact() {
    let mut store = StoreState::new();

    let old_cache = FileCache::from_entries(vec![FileData::new("old", "/old", FileType::File)]);
    let old_artifact = encode_records(&old_cache.to_records());
    store.begin_write(old_artifact.clone());
    store.commit();
    assert_eq!(store.read().unwrap(), &old_artifact);

    let new_cache = FileCache::from_entries(vec![FileData::new("new", "/new", FileType::File)]);
    let new_artifact = encode_records(&new_cache.to_records());
    store.begin_write(new_artifact.clone());
    store.crash();

    let seen = store.read().unwrap();
    assert_eq!(seen, &old_artifact);
    let recovered = decode_records(seen).unwrap();
    let recovered_cache = FileCache::from_records(&recovered).unwrap();
    assert!(recovered_cache.find_file("old", true).is_some());
    assert!(recovered_cache.find_file("new", true).is_none());

    store.begin_write(new_artifact.clone());
    store.commit();
    assert_eq!(store.read().unwrap(), &new_artifact);
}

#[test]
fn crash_on_a_never_committed_store_reads_absent() {
    let mut store = StoreState::new();
    store.begin_write(chars_of("half-written junk"));
    store.crash();
    assert!(store.read().is_none());
}
