use mediarepo::error::RepoError;
use mediarepo::media_type::{classify, extension_of, file_type_of, media_type_of_path, FileType};
use mediarepo::repo::Repo;
use mediarepo::tagging::TagDao;

#[test]
fn top_level_types_map_to_file_types() {
    assert_eq!(file_type_of("image"), FileType::Image);
    assert_eq!(file_type_of("video"), FileType::Video);
    assert_eq!(file_type_of("audio"), FileType::Audio);
    assert_eq!(file_type_of("text"), FileType::Unknown);
    assert_eq!(file_type_of("Image"), FileType::Unknown);
    assert_eq!(file_type_of("images"), FileType::Unknown);
    assert_eq!(file_type_of(""), FileType::Unknown);
}

#[test]
fn classify_keeps_the_text_and_maps_the_type() {
    assert_eq!(
        classify(Some(("image/png".to_string(), "image".to_string()))),
        (Some("image/png".to_string()), FileType::Image)
    );
    assert_eq!(
        classify(Some(("text/plain".to_string(), "text".to_string()))),
        (Some("text/plain".to_string()), FileType::Unknown)
    );
    assert_eq!(classify(None), (None, FileType::Unknown));
}

#[test]
fn extension_follows_the_last_dot_of_the_file_name() {
    assert_eq!(extension_of("cat.png"), Some("png".to_string()));
    assert_eq!(extension_of("/a/b/cat.tar.gz"), Some("gz".to_string()));
    assert_eq!(extension_of("/a.b/cat"), None);
    assert_eq!(extension_of(".hidden"), None);
    assert_eq!(extension_of("/x/.hidden"), None);
    assert_eq!(extension_of(".hidden.txt"), Some("txt".to_string()));
    assert_eq!(extension_of("cat."), Some("".to_string()));
    assert_eq!(extension_of("cat"), None);
    assert_eq!(extension_of(""), None);
    assert_eq!(extension_of("dir/"), None);
}

#[test]
fn media_types_are_guessed_from_extensions() {
    assert_eq!(
        media_type_of_path("photo.JPG"),
        Some(("image/jpeg".to_string(), "image".to_string()))
    );
    assert_eq!(
        media_type_of_path("/music/song.mp3"),
        Some(("audio/mpeg".to_string(), "audio".to_string()))
    );
    assert_eq!(media_type_of_path("song.unknownext"), None);
    assert_eq!(media_type_of_path("song."), None);
    assert_eq!(media_type_of_path("song"), None);
}

#[test]
fn a_supplied_media_type_is_stored_as_parsed() {
    let mut repo = Repo::new();
    repo.add_storage("default", "/data").unwrap();
    repo.set_main_storage("default");
    let file = repo.add_file(Some("IMAGE/PNG".to_string()), vec![1], 0, 0, 0).unwrap();
    assert_eq!(file.mime_type.as_deref(), Some("image/png"));
    assert_eq!(file.file_type, FileType::Image);
    let with_parameter =
        repo.add_file(Some("text/plain; charset=utf-8".to_string()), vec![2], 0, 0, 0).unwrap();
    assert_eq!(with_parameter.mime_type.as_deref(), Some("text/plain; charset=utf-8"));
}

#[test]
fn error_messages_name_the_kind() {
    assert_eq!(RepoError::NotFound.message(), "not found");
    assert_eq!(RepoError::Conflict.message(), "conflict");
    assert_eq!(RepoError::StorageUnavailable.message(), "no storage configured");
    assert_eq!(RepoError::IntegrityError.message(), "stored content is missing");
    assert_eq!(RepoError::UpstreamDisconnected.message(), "not connected");
    assert_eq!(RepoError::InvalidRequest.message(), "invalid request");
    assert_eq!(RepoError::RenderFailed.message(), "failed to create thumbnail");
    assert_eq!(RepoError::CapacityExceeded.message(), "capacity exceeded");
}

#[test]
fn the_tag_access_object_lists_the_tags_of_a_descriptor() {
    let mut repo = Repo::new();
    repo.add_storage("default", "/data").unwrap();
    repo.set_main_storage("default");
    let file = repo.add_file(None, vec![1], 0, 0, 0).unwrap();
    let tag = repo.add_or_find_tag("artist:bob").unwrap();
    repo.add_or_find_tag("unused").unwrap();
    repo.tag_file(file.id, tag.id).unwrap();
    let dao = TagDao::new(&repo);
    let tags = dao.tags_for_cd(file.cd_id);
    assert_eq!(tags.len(), 1);
    assert_eq!(tags[0].id, tag.id);
    assert_eq!(tags[0].namespace.as_ref().unwrap().name, "artist");
    assert!(dao.tags_for_cd(file.cd_id + 1).is_empty());
}
