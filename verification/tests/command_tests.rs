use mediarepo::buffer::BufferState;
use mediarepo::catalog::{Namespace, Tag};
use mediarepo::commands::{
    find_files, get_all_files, get_file_thumbnails, read_file_by_hash, read_thumbnail, TagQuery,
};
use mediarepo::connection::ApiState;
use mediarepo::error::RepoError;
use mediarepo::repo::Repo;
use mediarepo::responses::{
    FileBasicDataResponse, FileMetadataResponse, FileStatus, FromModel, NamespaceResponse,
    TagResponse, ThumbnailMetadataResponse,
};
use mediarepo::schemes::once_scheme;
use mediarepo::sorting::{SortDirection, SortKey};

const HELLO_HASH: &str = "2cf24dba5fb0a30e26e83b2ac5b9e29e1b161e5c1fa7425e73043362938b9824";

fn populated() -> ApiState<Repo> {
    let mut repo = Repo::new();
    repo.add_storage("default", "/data/main").unwrap();
    repo.add_storage("thumbs", "/data/thumbs").unwrap();
    repo.set_main_storage("default");
    repo.set_thumbnail_storage("thumbs");
    let hello = repo.add_file(Some("text/plain".to_string()), b"hello".to_vec(), 1, 2, 3).unwrap();
    let world = repo.add_file(None, b"world".to_vec(), 4, 5, 6).unwrap();
    repo.update_file_name(world.id, "w".to_string()).unwrap();
    let tag = repo.add_or_find_tag("greeting").unwrap();
    repo.tag_file(hello.id, tag.id).unwrap();
    repo.store_single_thumbnail(hello.id, 10, 20, vec![1, 2, 3]).unwrap();
    repo.store_single_thumbnail(world.id, 30, 40, vec![4]).unwrap();
    repo.store_single_thumbnail(hello.id, 50, 60, vec![5]).unwrap();
    let mut state = ApiState::new();
    state.set_api(repo);
    state
}

#[test]
fn the_connection_state_holds_one_client() {
    let mut state: ApiState<u32> = ApiState::new();
    assert!(!state.is_connected());
    assert_eq!(state.api().err(), Some(RepoError::UpstreamDisconnected));
    assert_eq!(state.set_api(1), None);
    assert!(state.is_connected());
    assert_eq!(state.api().ok(), Some(&1));
    assert_eq!(state.set_api(2), Some(1));
    assert_eq!(state.api().ok(), Some(&2));
    assert_eq!(state.disconnect(), Some(2));
    assert!(!state.is_connected());
    assert_eq!(state.disconnect(), None);
    assert_eq!(state.api().err(), Some(RepoError::UpstreamDisconnected));
}

#[test]
fn commands_fail_while_disconnected() {
    let state: ApiState<Repo> = ApiState::new();
    let mut buffers = BufferState::new();
    assert_eq!(get_all_files(&state).err(), Some(RepoError::UpstreamDisconnected));
    assert_eq!(
        find_files(Vec::new(), Vec::new(), &state).err(),
        Some(RepoError::UpstreamDisconnected)
    );
    assert_eq!(
        read_file_by_hash("a".to_string(), "b".to_string(), &state, &mut buffers, 0).err(),
        Some(RepoError::UpstreamDisconnected)
    );
    assert_eq!(
        get_file_thumbnails("a".to_string(), &state).err(),
        Some(RepoError::UpstreamDisconnected)
    );
    assert_eq!(
        read_thumbnail("a".to_string(), "b".to_string(), &state, &mut buffers, 0).err(),
        Some(RepoError::UpstreamDisconnected)
    );
    assert_eq!(buffers.len(), 0);
}

#[test]
fn get_all_files_describes_every_file() {
    let state = populated();
    let all = get_all_files(&state).unwrap();
    assert_eq!(all.len(), 2);
    assert_eq!(all[0].file_id, 1);
    assert_eq!(all[0].name, None);
    assert_eq!((all[0].creation_time, all[0].change_time, all[0].import_time), (1, 2, 3));
    assert_eq!(all[1].file_id, 2);
    assert_eq!(all[1].name.as_deref(), Some("w"));
    assert_eq!((all[1].creation_time, all[1].change_time, all[1].import_time), (4, 5, 6));
}

#[test]
fn find_files_applies_the_tag_queries() {
    let state = populated();
    let with = find_files(
        vec![TagQuery { name: "Greeting".to_string(), negate: false }],
        Vec::new(),
        &state,
    )
    .unwrap();
    assert_eq!(with.iter().map(|f| f.file_id).collect::<Vec<i64>>(), vec![1]);
    let without = find_files(
        vec![TagQuery { name: "greeting".to_string(), negate: true }],
        Vec::new(),
        &state,
    )
    .unwrap();
    assert_eq!(without.iter().map(|f| f.file_id).collect::<Vec<i64>>(), vec![2]);
    let all = find_files(Vec::new(), Vec::new(), &state).unwrap();
    assert_eq!(all.len(), 2);
    let newest_first = find_files(
        Vec::new(),
        vec![SortKey::FileImportedTime(SortDirection::Descending)],
        &state,
    )
    .unwrap();
    assert_eq!(newest_first.iter().map(|f| f.file_id).collect::<Vec<i64>>(), vec![2, 1]);
}

#[test]
fn read_file_by_hash_stages_the_content_for_one_fetch() {
    let state = populated();
    let mut buffers = BufferState::new();
    let uri = read_file_by_hash(
        HELLO_HASH.to_string(),
        "text/plain".to_string(),
        &state,
        &mut buffers,
        9,
    )
    .unwrap();
    assert_eq!(uri, format!("once://{}", HELLO_HASH));
    let response = once_scheme(&mut buffers, &uri);
    assert_eq!(response.status, 200);
    assert_eq!(response.mime, "text/plain");
    assert_eq!(response.body, b"hello".to_vec());
    assert_eq!(once_scheme(&mut buffers, &uri).status, 404);
    assert_eq!(
        read_file_by_hash("nope".to_string(), "x".to_string(), &state, &mut buffers, 9).err(),
        Some(RepoError::NotFound)
    );
    assert_eq!(buffers.len(), 0);
}

#[test]
fn get_file_thumbnails_describes_the_thumbnails_of_the_file() {
    let state = populated();
    let list = get_file_thumbnails(HELLO_HASH.to_string(), &state).unwrap();
    assert_eq!(list.len(), 2);
    assert_eq!(list[0].file_hash, HELLO_HASH);
    assert_eq!((list[0].height, list[0].width), (10, 20));
    assert_eq!((list[1].height, list[1].width), (50, 60));
    assert_eq!(list[1].mime_type.as_deref(), Some("image/png"));
    assert_eq!(
        get_file_thumbnails("nope".to_string(), &state).err(),
        Some(RepoError::NotFound)
    );
}

#[test]
fn read_thumbnail_stages_the_bytes_for_one_fetch() {
    let state = populated();
    let mut buffers = BufferState::new();
    let thumbnail = state.api().unwrap().thumbnails_of_file(2).remove(0);
    let uri = read_thumbnail(
        thumbnail.hash.clone(),
        "image/png".to_string(),
        &state,
        &mut buffers,
        0,
    )
    .unwrap();
    assert_eq!(uri, format!("once://{}", thumbnail.hash));
    let response = once_scheme(&mut buffers, &uri);
    assert_eq!(response.body, vec![4]);
    assert_eq!(response.mime, "image/png");
    assert_eq!(
        read_thumbnail("nope".to_string(), "x".to_string(), &state, &mut buffers, 0).err(),
        Some(RepoError::NotFound)
    );
}

#[test]
fn rows_convert_into_their_response_shapes() {
    let state = populated();
    let repo = state.api().unwrap();
    let file = repo.file_by_id(1).unwrap();
    let metadata = FileMetadataResponse::from_model(file.metadata());
    assert_eq!(metadata.file_id, 1);
    assert_eq!(metadata.comment, None);
    assert_eq!(metadata.import_time, 3);
    let basic = FileBasicDataResponse::from_model(file);
    assert_eq!(basic.id, 1);
    assert_eq!(basic.status, FileStatus::Imported);
    assert_eq!(basic.cd, HELLO_HASH);
    assert_eq!(basic.mime_type.as_deref(), Some("text/plain"));
    assert_eq!(FileStatus::from_model(mediarepo::file::FileStatus::Archived), FileStatus::Archived);
    assert_eq!(FileStatus::from_model(mediarepo::file::FileStatus::Deleted), FileStatus::Deleted);
    let thumbnail = ThumbnailMetadataResponse::from_model(repo.thumbnails_of_file(2).remove(0));
    assert_eq!((thumbnail.height, thumbnail.width), (30, 40));
    let namespace = Namespace { id: 4, name: "artist".to_string() };
    let tag = Tag { id: 7, namespace: Some(namespace.clone()), name: "bob".to_string() };
    let response = TagResponse::from_model(tag);
    assert_eq!(response.id, 7);
    assert_eq!(response.namespace.as_deref(), Some("artist"));
    assert_eq!(response.name, "bob");
    let plain = TagResponse::from_model(Tag { id: 8, namespace: None, name: "x".to_string() });
    assert_eq!(plain.namespace, None);
    let shaped = NamespaceResponse::from_model(namespace);
    assert_eq!((shaped.id, shaped.name.as_str()), (4, "artist"));
}
