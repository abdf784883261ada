use mediarepo::digest::{hash_content, hex_encode};
use mediarepo::error::RepoError;
use mediarepo::file::FileStatus;
use mediarepo::media_type::FileType;
use mediarepo::repo::Repo;
use mediarepo::storage::{object_path, ContentStore, Storage};

const HELLO_HASH: &str = "2cf24dba5fb0a30e26e83b2ac5b9e29e1b161e5c1fa7425e73043362938b9824";
const EMPTY_HASH: &str = "e3b0c44298fc1c149afbf4c8996fb92427ae41e4649b934ca495991b7852b855";

fn repo_with_default_storage() -> Repo {
    let mut repo = Repo::new();
    repo.add_storage("default", "/data/main").unwrap();
    repo.set_main_storage("default");
    repo
}

#[test]
fn hex_encode_writes_two_lower_case_digits_per_byte() {
    assert_eq!(hex_encode(&vec![0x00, 0x0f, 0xa5, 0xff]), "000fa5ff");
    assert_eq!(hex_encode(&Vec::new()), "");
}

#[test]
fn content_hash_is_sha256_in_hex() {
    assert_eq!(hash_content(&b"hello".to_vec()), HELLO_HASH);
    assert_eq!(hash_content(&Vec::new()), EMPTY_HASH);
}

#[test]
fn storing_the_same_bytes_twice_gives_one_descriptor_and_one_copy() {
    let mut store = ContentStore::new();
    let location = store.add_storage("default", "/data").unwrap();
    let first = store.store_entry(location.id, b"hello".to_vec()).unwrap();
    let second = store.store_entry(location.id, b"hello".to_vec()).unwrap();
    assert_eq!(first.id, second.id);
    assert_eq!(first.id, 1);
    assert_eq!(first.hash, HELLO_HASH);
    assert_eq!(first.storage_id, location.id);
    assert!(store.descriptor_by_id(2).is_none());
    assert_eq!(store.read_entry(location.id, HELLO_HASH).unwrap(), b"hello".to_vec());
    assert!(store.discard_bytes(location.id, HELLO_HASH));
    assert!(!store.discard_bytes(location.id, HELLO_HASH));
}

#[test]
fn the_same_bytes_in_two_locations_get_two_descriptors() {
    let mut store = ContentStore::new();
    let a = store.add_storage("a", "/a").unwrap();
    let b = store.add_storage("b", "/b").unwrap();
    let first = store.store_entry(a.id, b"hello".to_vec()).unwrap();
    let second = store.store_entry(b.id, b"hello".to_vec()).unwrap();
    assert_eq!(first.id, 1);
    assert_eq!(second.id, 2);
    assert_eq!(first.hash, second.hash);
    assert_eq!(store.descriptor_by_hash(b.id, HELLO_HASH).unwrap().id, 2);
}

#[test]
fn different_bytes_get_different_descriptors() {
    let mut store = ContentStore::new();
    let location = store.add_storage("default", "/data").unwrap();
    let first = store.store_entry(location.id, b"hello".to_vec()).unwrap();
    let second = store.store_entry(location.id, b"world".to_vec()).unwrap();
    assert_ne!(first.id, second.id);
    assert_ne!(first.hash, second.hash);
    assert_eq!(store.read_entry(location.id, &second.hash).unwrap(), b"world".to_vec());
}

#[test]
fn storing_in_an_unknown_location_is_not_found() {
    let mut store = ContentStore::new();
    assert_eq!(store.store_entry(1, b"hello".to_vec()).err(), Some(RepoError::NotFound));
    assert_eq!(store.store_entry(0, b"hello".to_vec()).err(), Some(RepoError::NotFound));
    assert_eq!(store.store_entry(-3, b"hello".to_vec()).err(), Some(RepoError::NotFound));
}

#[test]
fn store_hashed_returns_the_existing_descriptor_without_writing() {
    let mut store = ContentStore::new();
    let location = store.add_storage("default", "/data").unwrap();
    let first = store.store_hashed(location.id, "abc".to_string(), vec![1, 2, 3]).unwrap();
    let second = store.store_hashed(location.id, "abc".to_string(), vec![9, 9]).unwrap();
    assert_eq!(first.id, second.id);
    assert_eq!(store.read_entry(location.id, "abc").unwrap(), vec![1, 2, 3]);
}

#[test]
fn reading_an_unknown_hash_is_not_found() {
    let mut store = ContentStore::new();
    let location = store.add_storage("default", "/data").unwrap();
    assert_eq!(store.read_entry(location.id, "abc").err(), Some(RepoError::NotFound));
}

#[test]
fn reading_lost_bytes_is_an_integrity_error() {
    let mut store = ContentStore::new();
    let location = store.add_storage("default", "/data").unwrap();
    store.store_entry(location.id, b"hello".to_vec()).unwrap();
    assert!(store.discard_bytes(location.id, HELLO_HASH));
    assert_eq!(
        store.read_entry(location.id, HELLO_HASH).err(),
        Some(RepoError::IntegrityError)
    );
    let again = store.store_entry(location.id, b"hello".to_vec()).unwrap();
    assert_eq!(again.id, 1);
    assert_eq!(
        store.read_entry(location.id, HELLO_HASH).err(),
        Some(RepoError::IntegrityError)
    );
}

#[test]
fn storage_names_are_unique() {
    let mut store = ContentStore::new();
    let first = store.add_storage("default", "/a").unwrap();
    assert_eq!(first.id, 1);
    assert_eq!(store.add_storage("default", "/b").err(), Some(RepoError::Conflict));
    let second = store.add_storage("thumbs", "/a").unwrap();
    assert_eq!(second.id, 2);
    assert_eq!(store.storages().len(), 2);
    assert_eq!(store.storage_by_name("thumbs").unwrap().id, 2);
    assert!(store.storage_by_name("other").is_none());
    assert_eq!(store.storage_by_path("/a").unwrap().id, 1);
    assert!(store.storage_by_path("/b").is_none());
    assert_eq!(store.storage_by_id(2).unwrap().name, "thumbs");
    assert!(store.storage_by_id(3).is_none());
    assert!(store.storage_by_id(0).is_none());
}

#[test]
fn object_path_puts_the_hash_below_a_two_character_folder() {
    let storage = Storage { id: 1, name: "default".to_string(), path: "/data".to_string() };
    assert_eq!(object_path(&storage, "abcdef"), "/data/ab/abcdef");
    assert_eq!(object_path(&storage, "a"), "/data/a/a");
    assert_eq!(object_path(&storage, ""), "/data//");
}

#[test]
fn end_to_end_add_and_read_back() {
    let mut repo = repo_with_default_storage();
    let file = repo
        .add_file(Some("text/plain".to_string()), b"hello".to_vec(), 10, 20, 30)
        .unwrap();
    assert_eq!(file.id, 1);
    assert_eq!(file.status, FileStatus::Imported);
    assert_eq!(file.mime_type.as_deref(), Some("text/plain"));
    assert_eq!(file.file_type, FileType::Unknown);
    assert_eq!(file.creation_time, 10);
    assert_eq!(file.change_time, 20);
    assert_eq!(file.import_time, 30);
    assert_eq!(file.hash, HELLO_HASH);
    assert_eq!(file.name, None);
    assert_eq!(repo.read_file(file.id).unwrap(), b"hello".to_vec());
    assert_eq!(repo.read_file_by_hash(HELLO_HASH).unwrap(), b"hello".to_vec());
    assert_eq!(repo.file_by_id(1).unwrap().hash, HELLO_HASH);
    assert_eq!(repo.file_by_hash(HELLO_HASH).unwrap().id, 1);
    assert_eq!(repo.files().len(), 1);
}

#[test]
fn add_file_without_main_storage_is_unavailable() {
    let mut repo = Repo::new();
    let result = repo.add_file(None, b"hello".to_vec(), 1, 2, 3);
    assert_eq!(result.err(), Some(RepoError::StorageUnavailable));
    assert!(repo.files().is_empty());
    assert_eq!(
        repo.add_file_by_path("a.png", Vec::new(), 1).err(),
        Some(RepoError::StorageUnavailable)
    );
    assert_eq!(repo.get_main_storage().err(), Some(RepoError::StorageUnavailable));
    assert_eq!(repo.get_thumbnail_storage().err(), Some(RepoError::StorageUnavailable));
}

#[test]
fn setting_an_unknown_main_storage_leaves_none() {
    let mut repo = repo_with_default_storage();
    assert_eq!(repo.get_main_storage().unwrap().name, "default");
    repo.set_main_storage("missing");
    assert!(repo.get_main_storage().is_err());
}

#[test]
fn add_file_classifies_by_media_type() {
    let mut repo = repo_with_default_storage();
    let image = repo.add_file(Some("image/png".to_string()), vec![1], 0, 0, 0).unwrap();
    assert_eq!(image.file_type, FileType::Image);
    assert_eq!(image.mime_type.as_deref(), Some("image/png"));
    let video = repo.add_file(Some("video/mp4".to_string()), vec![2], 0, 0, 0).unwrap();
    assert_eq!(video.file_type, FileType::Video);
    let audio = repo.add_file(Some("audio/ogg".to_string()), vec![3], 0, 0, 0).unwrap();
    assert_eq!(audio.file_type, FileType::Audio);
    let broken = repo.add_file(Some("not a mime".to_string()), vec![4], 0, 0, 0).unwrap();
    assert_eq!(broken.file_type, FileType::Unknown);
    assert_eq!(broken.mime_type, None);
    let none = repo.add_file(None, vec![5], 0, 0, 0).unwrap();
    assert_eq!(none.file_type, FileType::Unknown);
    assert_eq!(none.mime_type, None);
    assert_eq!(repo.files().len(), 5);
}

#[test]
fn add_file_by_path_guesses_from_the_extension() {
    let mut repo = repo_with_default_storage();
    let picture = repo.add_file_by_path("/home/me/cat.png", vec![1], 77).unwrap();
    assert_eq!(picture.mime_type.as_deref(), Some("image/png"));
    assert_eq!(picture.file_type, FileType::Image);
    assert_eq!(picture.creation_time, 77);
    assert_eq!(picture.change_time, 77);
    assert_eq!(picture.import_time, 77);
    let text = repo.add_file_by_path("notes.txt", vec![2], 78).unwrap();
    assert_eq!(text.mime_type.as_deref(), Some("text/plain"));
    assert_eq!(text.file_type, FileType::Unknown);
    let bare = repo.add_file_by_path("/dir.d/README", vec![3], 79).unwrap();
    assert_eq!(bare.mime_type, None);
    assert_eq!(bare.file_type, FileType::Unknown);
    let hidden = repo.add_file_by_path(".png", vec![4], 80).unwrap();
    assert_eq!(hidden.mime_type, None);
}

#[test]
fn two_files_with_the_same_content_share_one_descriptor() {
    let mut repo = repo_with_default_storage();
    let first = repo.add_file(None, b"hello".to_vec(), 1, 1, 1).unwrap();
    let second = repo.add_file(None, b"hello".to_vec(), 2, 2, 2).unwrap();
    assert_ne!(first.id, second.id);
    assert_eq!(first.cd_id, second.cd_id);
    assert_eq!(repo.file_by_hash(HELLO_HASH).unwrap().id, first.id);
}

#[test]
fn insert_file_records_the_given_values() {
    let mut repo = repo_with_default_storage();
    let file = repo
        .insert_file(
            "cafe".to_string(),
            vec![7, 8],
            Some("image/gif".to_string()),
            FileType::Image,
            5,
            6,
            7,
        )
        .unwrap();
    assert_eq!(file.id, 1);
    assert_eq!(file.cd_id, 1);
    assert_eq!(file.storage_id, 1);
    assert_eq!(file.hash, "cafe");
    assert_eq!(file.mime_type.as_deref(), Some("image/gif"));
    assert_eq!(file.file_type, FileType::Image);
    assert_eq!((file.creation_time, file.change_time, file.import_time), (5, 6, 7));
    assert_eq!(repo.read_file(1).unwrap(), vec![7, 8]);
}

#[test]
fn reading_an_unknown_file_is_not_found() {
    let repo = repo_with_default_storage();
    assert_eq!(repo.read_file(1).err(), Some(RepoError::NotFound));
    assert_eq!(repo.read_file(0).err(), Some(RepoError::NotFound));
    assert_eq!(repo.read_file_by_hash("nope").err(), Some(RepoError::NotFound));
    assert!(repo.file_by_id(1).is_none());
    assert!(repo.file_by_hash("nope").is_none());
}

#[test]
fn reading_a_file_whose_bytes_are_lost_is_an_integrity_error() {
    let mut repo = repo_with_default_storage();
    let file = repo.add_file(None, b"hello".to_vec(), 1, 1, 1).unwrap();
    assert!(repo.discard_file_bytes(file.id));
    assert!(!repo.discard_file_bytes(file.id));
    assert!(!repo.discard_file_bytes(99));
    assert_eq!(repo.read_file(file.id).err(), Some(RepoError::IntegrityError));
    assert_eq!(repo.read_file_by_hash(HELLO_HASH).err(), Some(RepoError::IntegrityError));
    assert_eq!(repo.file_by_id(file.id).unwrap().id, file.id);
}

#[test]
fn update_file_name_sets_the_name() {
    let mut repo = repo_with_default_storage();
    let file = repo.add_file(None, b"hello".to_vec(), 1, 1, 1).unwrap();
    let renamed = repo.update_file_name(file.id, "greeting".to_string()).unwrap();
    assert_eq!(renamed.name.as_deref(), Some("greeting"));
    assert_eq!(renamed.hash, file.hash);
    assert_eq!(repo.file_by_id(file.id).unwrap().name.as_deref(), Some("greeting"));
    assert_eq!(
        repo.update_file_name(5, "x".to_string()).err(),
        Some(RepoError::NotFound)
    );
}

#[test]
fn repo_storages_are_listed_and_found_by_path() {
    let mut repo = Repo::new();
    assert!(repo.storages().is_empty());
    repo.add_storage("default", "/data/main").unwrap();
    repo.add_storage("thumbs", "/data/thumbs").unwrap();
    assert_eq!(repo.add_storage("thumbs", "/x").err(), Some(RepoError::Conflict));
    let all = repo.storages();
    assert_eq!(all.len(), 2);
    assert_eq!(all[1].name, "thumbs");
    assert_eq!(repo.storage_by_path("/data/thumbs").unwrap().id, 2);
    assert!(repo.storage_by_path("/nowhere").is_none());
    repo.set_thumbnail_storage("thumbs");
    assert_eq!(repo.get_thumbnail_storage().unwrap().id, 2);
}
