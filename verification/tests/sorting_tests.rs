use mediarepo::file::{File, FileStatus};
use mediarepo::media_type::FileType;
use mediarepo::sorting::{file_order_of, sort_files, SortDirection, SortKey};

fn row(id: i64, name: Option<&str>, import_time: i64, creation_time: i64, change_time: i64) -> File {
    File {
        id,
        cd_id: id,
        storage_id: 1,
        hash: format!("h{}", id),
        file_type: FileType::Unknown,
        mime_type: None,
        status: FileStatus::Imported,
        name: name.map(|n| n.to_string()),
        comment: None,
        creation_time,
        change_time,
        import_time,
    }
}

fn ids(files: &[File]) -> Vec<i64> {
    files.iter().map(|f| f.id).collect()
}

fn sample() -> Vec<File> {
    vec![
        row(1, Some("pear"), 30, 1, 9),
        row(2, None, 10, 2, 8),
        row(3, Some("apple"), 20, 3, 7),
        row(4, Some("pear"), 10, 4, 6),
        row(5, Some("app"), 20, 5, 5),
    ]
}

#[test]
fn sorting_by_import_time_puts_earlier_files_first() {
    let keys = vec![SortKey::FileImportedTime(SortDirection::Ascending)];
    assert_eq!(ids(&sort_files(sample(), &keys)), vec![2, 4, 3, 5, 1]);
    let reversed = vec![SortKey::FileImportedTime(SortDirection::Descending)];
    assert_eq!(ids(&sort_files(sample(), &reversed)), vec![1, 3, 5, 2, 4]);
}

#[test]
fn sorting_by_name_puts_unnamed_files_first_and_prefixes_before_longer_names() {
    let keys = vec![SortKey::FileName(SortDirection::Ascending)];
    assert_eq!(ids(&sort_files(sample(), &keys)), vec![2, 5, 3, 1, 4]);
    let reversed = vec![SortKey::FileName(SortDirection::Descending)];
    assert_eq!(ids(&sort_files(sample(), &reversed)), vec![1, 4, 3, 5, 2]);
}

#[test]
fn later_keys_break_the_ties_of_earlier_ones() {
    let keys = vec![
        SortKey::FileName(SortDirection::Ascending),
        SortKey::FileImportedTime(SortDirection::Ascending),
    ];
    assert_eq!(ids(&sort_files(sample(), &keys)), vec![2, 5, 3, 4, 1]);
    let other = vec![
        SortKey::FileImportedTime(SortDirection::Ascending),
        SortKey::FileCreatedTime(SortDirection::Descending),
    ];
    assert_eq!(ids(&sort_files(sample(), &other)), vec![4, 2, 5, 3, 1]);
}

#[test]
fn sorting_by_creation_and_change_time() {
    let created = vec![SortKey::FileCreatedTime(SortDirection::Descending)];
    assert_eq!(ids(&sort_files(sample(), &created)), vec![5, 4, 3, 2, 1]);
    let changed = vec![SortKey::FileChangeTime(SortDirection::Ascending)];
    assert_eq!(ids(&sort_files(sample(), &changed)), vec![5, 4, 3, 2, 1]);
}

#[test]
fn sorting_without_keys_keeps_the_order() {
    assert_eq!(ids(&sort_files(sample(), &Vec::new())), vec![1, 2, 3, 4, 5]);
    assert!(sort_files(Vec::new(), &Vec::new()).is_empty());
}

#[test]
fn file_order_compares_by_the_first_key_that_differs() {
    let a = row(1, Some("a"), 1, 5, 0);
    let b = row(2, Some("b"), 1, 4, 0);
    let by_name = vec![SortKey::FileName(SortDirection::Ascending)];
    assert_eq!(file_order_of(&a, &b, &by_name), -1);
    assert_eq!(file_order_of(&b, &a, &by_name), 1);
    assert_eq!(file_order_of(&a, &a, &by_name), 0);
    let by_times = vec![
        SortKey::FileImportedTime(SortDirection::Ascending),
        SortKey::FileCreatedTime(SortDirection::Ascending),
    ];
    assert_eq!(file_order_of(&a, &b, &by_times), 1);
    assert_eq!(file_order_of(&a, &b, &Vec::new()), 0);
}
