use mielikki::{FileCache, FileData, FileType};

fn sample_cache() -> FileCache {
    FileCache::from_entries(vec![
        FileData::new("Foo", "/x/Foo", FileType::File),
        FileData::new("foo", "/y/foo", FileType::File),
        FileData::new("bar", "/y/bar", FileType::Folder),
    ])
}

#[test]
fn find_twice_yields_identical_results() {
    let cache = sample_cache();
    let first = cache.find_file("foo", true);
    let second = cache.find_file("foo", true);
    assert_eq!(first, second);
    let first = cache.find_file("FOO", false);
    let second = cache.find_file("FOO", false);
    assert_eq!(first, second);
    let first = cache.find_file("gone", false);
    let second = cache.find_file("gone", false);
    assert_eq!(first, second);
}

#[test]
fn lookup_is_case_insensitive_and_exact_is_case_sensitive() {
    let cache = sample_cache();

    let loose = cache.find_file("foo", false).unwrap();
    assert_eq!(loose.len(), 2);
    assert_eq!(loose[0], FileData::new("Foo", "/x/Foo", FileType::File));
    assert_eq!(loose[1], FileData::new("foo", "/y/foo", FileType::File));

    let exact = cache.find_file("foo", true).unwrap();
    assert_eq!(exact.len(), 1);
    assert_eq!(exact[0], FileData::new("foo", "/y/foo", FileType::File));
}

#[test]
fn concrete_two_file_scenario() {
    let cache = FileCache::from_entries(vec![
        FileData::new("report.txt", "/a/report.txt", FileType::File),
        FileData::new("Report.txt", "/b/Report.txt", FileType::File),
    ]);

    let loose = cache.find_file("report.txt", false).unwrap();
    assert_eq!(loose.len(), 2);

    let exact = cache.find_file("report.txt", true).unwrap();
    assert_eq!(exact.len(), 1);
    assert_eq!(exact[0].name().as_str(), "report.txt");
    assert_eq!(exact[0].path().as_str(), "/a/report.txt");
    assert_eq!(exact[0].filetype(), FileType::File);

    assert!(cache.find_file("missing.txt", false).is_none());
}

#[test]
fn refresh_supersedes_and_never_merges() {
    let mut cache = FileCache::from_entries(vec![
        FileData::new("keep.txt", "/keep.txt", FileType::File),
        FileData::new("doomed.txt", "/doomed.txt", FileType::File),
    ]);
    assert!(cache.find_file("doomed.txt", false).is_some());

    cache.refresh(vec![FileData::new("keep.txt", "/keep.txt", FileType::File)]);

    assert!(cache.find_file("doomed.txt", false).is_none());
    assert!(cache.find_file("keep.txt", false).is_some());
}

#[test]
fn exact_miss_on_shared_key_is_empty_not_absent() {
    let cache = FileCache::from_entries(vec![FileData::new("FOO", "/FOO", FileType::File)]);
    let hits = cache.find_file("foo", true).unwrap();
    assert_eq!(hits.len(), 0);
}
