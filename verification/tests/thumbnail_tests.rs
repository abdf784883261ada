use mediarepo::error::RepoError;
use mediarepo::file::{in_window, size_satisfies, FileStatus, ThumbnailSize};
use mediarepo::repo::Repo;

fn png(width: u32, height: u32) -> Vec<u8> {
    let picture = image::DynamicImage::ImageRgb8(image::RgbImage::from_pixel(
        width,
        height,
        image::Rgb([10, 200, 30]),
    ));
    let mut bytes: Vec<u8> = Vec::new();
    picture
        .write_to(&mut std::io::Cursor::new(&mut bytes), image::ImageOutputFormat::Png)
        .unwrap();
    bytes
}

fn dimensions(bytes: &[u8]) -> (u32, u32) {
    let picture = image::load_from_memory(bytes).unwrap();
    (picture.height(), picture.width())
}

fn repo_with_storages() -> Repo {
    let mut repo = Repo::new();
    repo.add_storage("default", "/data/main").unwrap();
    repo.add_storage("thumbs", "/data/thumbs").unwrap();
    repo.set_main_storage("default");
    repo.set_thumbnail_storage("thumbs");
    repo
}

#[test]
fn the_window_spans_four_fifths_to_six_fifths_inclusive() {
    assert!(in_window(80, 100));
    assert!(in_window(120, 100));
    assert!(in_window(100, 100));
    assert!(!in_window(79, 100));
    assert!(!in_window(121, 100));
}

#[test]
fn the_window_bounds_are_rounded_down() {
    assert!(in_window(8, 11));
    assert!(in_window(13, 11));
    assert!(!in_window(7, 11));
    assert!(!in_window(14, 11));
    assert!(in_window(0, 1));
    assert!(in_window(1, 1));
    assert!(!in_window(2, 1));
    assert!(in_window(0, 0));
    assert!(!in_window(1, 0));
}

#[test]
fn the_window_does_not_overflow_at_the_largest_request() {
    assert!(in_window(u32::MAX, u32::MAX));
    assert!(in_window(3_435_973_836, u32::MAX));
    assert!(!in_window(3_435_973_835, u32::MAX));
}

#[test]
fn both_dimensions_must_lie_in_their_windows() {
    assert!(size_satisfies(110, 90, 100, 100));
    assert!(!size_satisfies(110, 90, 500, 500));
    assert!(!size_satisfies(110, 70, 100, 100));
    assert!(!size_satisfies(130, 90, 100, 100));
    assert!(size_satisfies(110, 90, 100, 80));
}

#[test]
fn tiers_have_fixed_boxes() {
    assert_eq!(ThumbnailSize::Small.dimensions(), (128, 128));
    assert_eq!(ThumbnailSize::Medium.dimensions(), (256, 256));
    assert_eq!(ThumbnailSize::Large.dimensions(), (512, 512));
}

#[test]
fn a_stored_thumbnail_in_the_window_is_reused_and_one_outside_causes_one_rendering() {
    let mut repo = repo_with_storages();
    let file = repo.add_file(Some("image/png".to_string()), png(64, 32), 0, 0, 0).unwrap();
    let stored = repo.store_single_thumbnail(file.id, 110, 90, vec![1, 2, 3]).unwrap();
    assert_eq!((stored.height, stored.width), (110, 90));
    assert_eq!(stored.mime_type.as_deref(), Some("image/png"));
    assert_eq!(stored.file_hash, file.hash);

    let (reused, bytes) = repo.get_or_create_thumbnail(file.id, 100, 100).unwrap();
    assert_eq!(reused.id, stored.id);
    assert_eq!(bytes, vec![1, 2, 3]);
    assert_eq!(repo.thumbnails_of_file(file.id).len(), 1);

    let (fresh, rendered) = repo.get_or_create_thumbnail(file.id, 500, 500).unwrap();
    assert_ne!(fresh.id, stored.id);
    assert_eq!(repo.thumbnails_of_file(file.id).len(), 2);
    assert_eq!((fresh.height, fresh.width), (128, 256));
    assert_eq!(dimensions(&rendered), (128, 256));
    assert_eq!(fresh.mime_type.as_deref(), Some("image/png"));
    assert_eq!(repo.read_thumbnail(&fresh.hash).unwrap(), rendered);

    let (again, _) = repo.get_or_create_thumbnail(file.id, 100, 100).unwrap();
    assert_eq!(again.id, stored.id);
    assert_eq!(repo.thumbnails_of_file(file.id).len(), 2);
}

#[test]
fn a_rendered_thumbnail_satisfies_a_later_request_near_its_size() {
    let mut repo = repo_with_storages();
    let file = repo.add_file(Some("image/png".to_string()), png(400, 400), 0, 0, 0).unwrap();
    let (first, _) = repo.get_or_create_thumbnail(file.id, 250, 250).unwrap();
    assert_eq!((first.height, first.width), (256, 256));
    let (second, _) = repo.get_or_create_thumbnail(file.id, 250, 250).unwrap();
    assert_eq!(first.id, second.id);
    assert_eq!(repo.thumbnails_of_file(file.id).len(), 1);
}

#[test]
fn the_first_acceptable_thumbnail_in_table_order_is_found() {
    let mut repo = repo_with_storages();
    let file = repo.add_file(None, vec![7], 0, 0, 0).unwrap();
    let other = repo.add_file(None, vec![8], 0, 0, 0).unwrap();
    repo.store_single_thumbnail(other.id, 100, 100, vec![0]).unwrap();
    repo.store_single_thumbnail(file.id, 300, 300, vec![1]).unwrap();
    let wanted = repo.store_single_thumbnail(file.id, 90, 110, vec![2]).unwrap();
    repo.store_single_thumbnail(file.id, 100, 100, vec![3]).unwrap();
    assert_eq!(repo.find_thumbnail(file.id, 100, 100).unwrap().id, wanted.id);
    assert!(repo.find_thumbnail(file.id, 1000, 1000).is_none());
    assert_eq!(repo.find_thumbnail(other.id, 100, 100).unwrap().id, 1);
    assert!(repo.find_thumbnail(77, 100, 100).is_none());
}

#[test]
fn create_file_thumbnail_renders_into_the_tier_box() {
    let mut repo = repo_with_storages();
    let file = repo.add_file(Some("image/png".to_string()), png(300, 600), 0, 0, 0).unwrap();
    let small = repo.create_file_thumbnail(file.id, ThumbnailSize::Small).unwrap();
    assert_eq!((small.height, small.width), (128, 64));
    let large = repo.create_file_thumbnail(file.id, ThumbnailSize::Large).unwrap();
    assert_eq!((large.height, large.width), (512, 256));
    assert_eq!(small.file_id, file.id);
    assert_eq!(small.storage_id, 2);
    repo.create_thumbnails_for_file(file.id).unwrap();
    let all = repo.thumbnails_of_file(file.id);
    assert_eq!(all.len(), 3);
    assert_eq!((all[2].height, all[2].width), (256, 128));
    assert_eq!(dimensions(&repo.read_thumbnail(&all[2].hash).unwrap()), (256, 128));
    assert_eq!(repo.thumbnail_by_hash(&small.hash).unwrap().id, small.id);
    assert!(repo.thumbnail_by_hash("nope").is_none());
}

#[test]
fn thumbnails_need_a_thumbnail_storage() {
    let mut repo = Repo::new();
    repo.add_storage("default", "/data/main").unwrap();
    repo.set_main_storage("default");
    let file = repo.add_file(Some("image/png".to_string()), png(8, 8), 0, 0, 0).unwrap();
    assert_eq!(
        repo.get_or_create_thumbnail(file.id, 10, 10).err(),
        Some(RepoError::StorageUnavailable)
    );
    assert_eq!(
        repo.create_file_thumbnail(file.id, ThumbnailSize::Medium).err(),
        Some(RepoError::StorageUnavailable)
    );
    assert_eq!(
        repo.create_thumbnails_for_file(file.id).err(),
        Some(RepoError::StorageUnavailable)
    );
    assert_eq!(
        repo.store_single_thumbnail(file.id, 1, 1, vec![1]).err(),
        Some(RepoError::StorageUnavailable)
    );
    assert_eq!(
        repo.get_or_create_thumbnail(99, 10, 10).err(),
        Some(RepoError::StorageUnavailable)
    );
    assert!(repo.thumbnails_of_file(file.id).is_empty());
}

#[test]
fn thumbnails_of_an_unknown_file_are_not_found() {
    let mut repo = repo_with_storages();
    assert_eq!(repo.get_or_create_thumbnail(1, 10, 10).err(), Some(RepoError::NotFound));
    assert_eq!(
        repo.create_file_thumbnail(1, ThumbnailSize::Small).err(),
        Some(RepoError::NotFound)
    );
    assert_eq!(repo.store_single_thumbnail(1, 1, 1, vec![1]).err(), Some(RepoError::NotFound));
    assert_eq!(repo.read_thumbnail("nope").err(), Some(RepoError::NotFound));
}

#[test]
fn bytes_that_are_no_image_fail_to_render() {
    let mut repo = repo_with_storages();
    let file = repo.add_file(Some("text/plain".to_string()), b"hello".to_vec(), 0, 0, 0).unwrap();
    assert_eq!(
        repo.create_file_thumbnail(file.id, ThumbnailSize::Medium).err(),
        Some(RepoError::RenderFailed)
    );
    assert_eq!(
        repo.get_or_create_thumbnail(file.id, 100, 100).err(),
        Some(RepoError::RenderFailed)
    );
    assert!(repo.thumbnails_of_file(file.id).is_empty());
}

#[test]
fn lost_source_or_thumbnail_bytes_are_an_integrity_error() {
    let mut repo = repo_with_storages();
    let file = repo.add_file(Some("image/png".to_string()), png(8, 8), 0, 0, 0).unwrap();
    let (thumb, _) = repo.get_or_create_thumbnail(file.id, 256, 256).unwrap();
    assert!(repo.discard_file_bytes(file.id));
    assert_eq!(
        repo.create_file_thumbnail(file.id, ThumbnailSize::Small).err(),
        Some(RepoError::IntegrityError)
    );
    let (reused, _) = repo.get_or_create_thumbnail(file.id, 256, 256).unwrap();
    assert_eq!(reused.id, thumb.id);
    assert_eq!(
        repo.get_or_create_thumbnail(file.id, 1000, 1000).err(),
        Some(RepoError::IntegrityError)
    );
    assert_eq!(repo.thumbnails_of_file(file.id).len(), 1);
}

#[test]
fn insert_thumbnail_records_the_given_values() {
    let mut repo = repo_with_storages();
    let file = repo.add_file(None, vec![5], 0, 0, 0).unwrap();
    let row = repo.insert_thumbnail(file.id, 30, 40, "feed".to_string(), vec![1, 2]).unwrap();
    assert_eq!(row.id, 1);
    assert_eq!(row.file_id, file.id);
    assert_eq!(row.hash, "feed");
    assert_eq!((row.height, row.width), (30, 40));
    assert_eq!(row.storage_id, 2);
    assert_eq!(row.cd_id, 2);
    assert_eq!(repo.read_thumbnail("feed").unwrap(), vec![1, 2]);
}

#[test]
fn thumbnails_outlive_a_change_of_file_status() {
    let mut repo = repo_with_storages();
    let file = repo.add_file(None, vec![7], 0, 0, 0).unwrap();
    let thumbnail = repo.store_single_thumbnail(file.id, 100, 100, vec![1]).unwrap();
    let archived = repo.update_file_status(file.id, FileStatus::Archived).unwrap();
    assert_eq!(archived.status, FileStatus::Archived);
    assert_eq!(archived.hash, file.hash);
    let deleted = repo.update_file_status(file.id, FileStatus::Deleted).unwrap();
    assert_eq!(deleted.status, FileStatus::Deleted);
    assert_eq!(repo.file_by_id(file.id).unwrap().status, FileStatus::Deleted);
    assert_eq!(repo.find_thumbnail(file.id, 100, 100).unwrap().id, thumbnail.id);
    assert_eq!(repo.read_file(file.id).unwrap(), vec![7]);
    assert_eq!(
        repo.update_file_status(9, FileStatus::Archived).err(),
        Some(RepoError::NotFound)
    );
}
