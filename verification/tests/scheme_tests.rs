use mediarepo::buffer::{BufferMode, BufferState};
use mediarepo::connection::ApiState;
use mediarepo::error::RepoError;
use mediarepo::repo::Repo;
use mediarepo::schemes::{add_once_buffer, content_scheme, once_scheme, thumb_scheme};
use mediarepo::uri::{
    decode_thumb_request, dimension_of, parse_u32, read_thumb_request, strip_prefix,
    DEFAULT_DIMENSION,
};

const HELLO_HASH: &str = "2cf24dba5fb0a30e26e83b2ac5b9e29e1b161e5c1fa7425e73043362938b9824";

fn png(width: u32, height: u32) -> Vec<u8> {
    let picture = image::DynamicImage::ImageRgb8(image::RgbImage::new(width, height));
    let mut bytes: Vec<u8> = Vec::new();
    picture
        .write_to(&mut std::io::Cursor::new(&mut bytes), image::ImageOutputFormat::Png)
        .unwrap();
    bytes
}

fn connected() -> ApiState<Repo> {
    let mut repo = Repo::new();
    repo.add_storage("default", "/data/main").unwrap();
    repo.add_storage("thumbs", "/data/thumbs").unwrap();
    repo.set_main_storage("default");
    repo.set_thumbnail_storage("thumbs");
    let mut state = ApiState::new();
    assert!(state.set_api(repo).is_none());
    state
}

fn pairs(list: Vec<(&str, &str)>) -> Vec<(String, String)> {
    list.into_iter().map(|(k, v)| (k.to_string(), v.to_string())).collect()
}

#[test]
fn parse_u32_reads_decimal_digits() {
    assert_eq!(parse_u32("0"), Some(0));
    assert_eq!(parse_u32("250"), Some(250));
    assert_eq!(parse_u32("007"), Some(7));
    assert_eq!(parse_u32("+12"), Some(12));
    assert_eq!(parse_u32("4294967295"), Some(u32::MAX));
    assert_eq!(parse_u32("4294967296"), None);
    assert_eq!(parse_u32("99999999999999999999999"), None);
    assert_eq!(parse_u32(""), None);
    assert_eq!(parse_u32("+"), None);
    assert_eq!(parse_u32("-1"), None);
    assert_eq!(parse_u32("++1"), None);
    assert_eq!(parse_u32("12a"), None);
    assert_eq!(parse_u32(" 12"), None);
    assert_eq!(parse_u32("1 "), None);
}

#[test]
fn parse_u32_agrees_with_the_standard_parser() {
    for text in ["0", "1", "+0", "42", "4294967295", "4294967296", "", "+", "x", "1x", "+-1", "٣"] {
        assert_eq!(parse_u32(text), text.parse::<u32>().ok());
    }
}

#[test]
fn strip_prefix_removes_every_leading_repetition() {
    assert_eq!(strip_prefix("once://key", "once://"), "key");
    assert_eq!(strip_prefix("once://once://key", "once://"), "key");
    assert_eq!(strip_prefix("key", "once://"), "key");
    assert_eq!(strip_prefix("once:/key", "once://"), "once:/key");
    assert_eq!(strip_prefix("once://", "once://"), "");
    assert_eq!(strip_prefix("", "once://"), "");
    assert_eq!(strip_prefix("abc", ""), "abc");
    assert_eq!(strip_prefix("aaab", "a"), "b");
}

#[test]
fn dimension_takes_the_last_value_or_the_default() {
    assert_eq!(DEFAULT_DIMENSION, 250);
    assert_eq!(dimension_of(&pairs(vec![("height", "100")]), "height"), 100);
    assert_eq!(dimension_of(&pairs(vec![("height", "100")]), "width"), 250);
    assert_eq!(dimension_of(&pairs(vec![("height", "100"), ("height", "300")]), "height"), 300);
    assert_eq!(dimension_of(&pairs(vec![("height", "100"), ("height", "x")]), "height"), 250);
    assert_eq!(dimension_of(&pairs(vec![("height", "-4")]), "height"), 250);
    assert_eq!(dimension_of(&Vec::new(), "height"), 250);
}

#[test]
fn thumb_requests_are_read_from_uri_parts() {
    let request = read_thumb_request(Some((
        Some("abc".to_string()),
        pairs(vec![("width", "64"), ("height", "32")]),
    )))
    .unwrap();
    assert_eq!(request.hash, "abc");
    assert_eq!((request.height, request.width), (32, 64));
    assert_eq!(
        read_thumb_request(Some((None, Vec::new()))).err(),
        Some(RepoError::InvalidRequest)
    );
    assert_eq!(read_thumb_request(None).err(), Some(RepoError::InvalidRequest));
}

#[test]
fn thumb_requests_are_decoded_from_uris() {
    let request = decode_thumb_request("thumb://abcdef?height=100&width=200").unwrap();
    assert_eq!(request.hash, "abcdef");
    assert_eq!((request.height, request.width), (100, 200));
    let bare = decode_thumb_request("thumb://abcdef").unwrap();
    assert_eq!((bare.height, bare.width), (250, 250));
    let escaped = decode_thumb_request("thumb://abcdef?height=%31%30&width=1+0").unwrap();
    assert_eq!((escaped.height, escaped.width), (10, 250));
    assert_eq!(decode_thumb_request("not a uri").err(), Some(RepoError::InvalidRequest));
    assert_eq!(decode_thumb_request("thumb:///path").err(), Some(RepoError::InvalidRequest));
}

#[test]
fn once_scheme_serves_a_payload_once() {
    let mut buffers = BufferState::new();
    let uri = add_once_buffer(
        &mut buffers,
        "k1".to_string(),
        "text/plain".to_string(),
        b"b".to_vec(),
        5,
    );
    assert_eq!(uri, "once://k1");
    let first = once_scheme(&mut buffers, &uri);
    assert_eq!(first.status, 200);
    assert_eq!(first.mime, "text/plain");
    assert_eq!(first.body, b"b".to_vec());
    let second = once_scheme(&mut buffers, &uri);
    assert_eq!(second.status, 404);
    assert_eq!(second.mime, "text/plain");
    assert_eq!(second.body, b"Resource not found".to_vec());
}

#[test]
fn once_scheme_answers_an_unknown_key_with_not_found() {
    let mut buffers = BufferState::new();
    let response = once_scheme(&mut buffers, "once://missing");
    assert_eq!(response.status, 404);
    assert_eq!(buffers.len(), 0);
}

#[test]
fn content_scheme_fetches_once_and_then_serves_from_the_cache() {
    let mut state = connected();
    let mut repo = state.disconnect().unwrap();
    repo.add_file(Some("text/plain".to_string()), b"hello".to_vec(), 0, 0, 0).unwrap();
    state.set_api(repo);
    let mut buffers = BufferState::new();
    let uri = format!("content://{}", HELLO_HASH);
    let first = content_scheme(&state, &mut buffers, &uri, 10).unwrap();
    assert_eq!(first.status, 200);
    assert_eq!(first.mime, "text/plain");
    assert_eq!(first.body, b"hello".to_vec());
    assert!(buffers.contains(HELLO_HASH));

    let offline: ApiState<Repo> = ApiState::new();
    let second = content_scheme(&offline, &mut buffers, &uri, 11).unwrap();
    assert_eq!(second.status, 200);
    assert_eq!(second.body, b"hello".to_vec());
    assert!(buffers.contains(HELLO_HASH));

    buffers.sweep(1_000, 100);
    assert_eq!(
        content_scheme(&offline, &mut buffers, &uri, 12).err(),
        Some(RepoError::UpstreamDisconnected)
    );
}

#[test]
fn content_scheme_falls_back_to_png_and_reports_unknown_hashes() {
    let mut state = connected();
    let mut repo = state.disconnect().unwrap();
    let file = repo.add_file(None, b"hello".to_vec(), 0, 0, 0).unwrap();
    state.set_api(repo);
    let mut buffers = BufferState::new();
    let response =
        content_scheme(&state, &mut buffers, &format!("content://{}", file.hash), 0).unwrap();
    assert_eq!(response.mime, "image/png");
    let missing = content_scheme(&state, &mut buffers, "content://ffff", 0).unwrap();
    assert_eq!(missing.status, 404);
    assert_eq!(missing.body, b"Resource not found".to_vec());
    assert!(!buffers.contains("ffff"));
}

#[test]
fn content_scheme_reports_lost_bytes() {
    let mut state = connected();
    let mut repo = state.disconnect().unwrap();
    let file = repo.add_file(None, b"hello".to_vec(), 0, 0, 0).unwrap();
    repo.discard_file_bytes(file.id);
    state.set_api(repo);
    let mut buffers = BufferState::new();
    assert_eq!(
        content_scheme(&state, &mut buffers, &format!("content://{}", file.hash), 0).err(),
        Some(RepoError::IntegrityError)
    );
    assert_eq!(buffers.len(), 0);
}

#[test]
fn thumb_scheme_renders_once_and_then_serves_from_the_cache() {
    let mut state = connected();
    let mut repo = state.disconnect().unwrap();
    let file = repo.add_file(Some("image/png".to_string()), png(40, 20), 0, 0, 0).unwrap();
    state.set_api(repo);
    let mut buffers = BufferState::new();
    let uri = format!("thumb://{}?height=128&width=256", file.hash);
    let first = thumb_scheme(&mut state, &mut buffers, &uri, 1).unwrap();
    assert_eq!(first.status, 200);
    assert_eq!(first.mime, "image/png");
    let picture = image::load_from_memory(&first.body).unwrap();
    assert_eq!((picture.height(), picture.width()), (128, 256));
    assert!(buffers.contains(&uri));
    assert_eq!(state.api().unwrap().thumbnails_of_file(file.id).len(), 1);

    let second = thumb_scheme(&mut state, &mut buffers, &uri, 2).unwrap();
    assert_eq!(second.body, first.body);
    assert_eq!(state.api().unwrap().thumbnails_of_file(file.id).len(), 1);

    let near = format!("thumb://{}?height=120&width=250", file.hash);
    let third = thumb_scheme(&mut state, &mut buffers, &near, 3).unwrap();
    assert_eq!(third.body, first.body);
    assert_eq!(state.api().unwrap().thumbnails_of_file(file.id).len(), 1);

    let far = format!("thumb://{}?height=500&width=500", file.hash);
    thumb_scheme(&mut state, &mut buffers, &far, 4).unwrap();
    assert_eq!(state.api().unwrap().thumbnails_of_file(file.id).len(), 2);
}

#[test]
fn thumb_scheme_rejects_bad_uris_before_anything_else() {
    let mut state: ApiState<Repo> = ApiState::new();
    let mut buffers = BufferState::new();
    buffers.put("junk".to_string(), "a/b".to_string(), vec![1], BufferMode::Persistent, 0);
    assert_eq!(
        thumb_scheme(&mut state, &mut buffers, "junk", 0).err(),
        Some(RepoError::InvalidRequest)
    );
    assert!(buffers.contains("junk"));
    assert_eq!(
        thumb_scheme(&mut state, &mut buffers, "thumb://abc", 0).err(),
        Some(RepoError::UpstreamDisconnected)
    );
}

#[test]
fn thumb_scheme_answers_unknown_hashes_with_not_found_and_keeps_the_connection() {
    let mut state = connected();
    let mut buffers = BufferState::new();
    let response = thumb_scheme(&mut state, &mut buffers, "thumb://abc?height=1", 0).unwrap();
    assert_eq!(response.status, 404);
    assert!(state.is_connected());
    assert_eq!(buffers.len(), 0);
}

#[test]
fn thumb_scheme_passes_repository_errors_on_and_keeps_the_connection() {
    let mut state = connected();
    let mut repo = state.disconnect().unwrap();
    let file = repo.add_file(None, b"hello".to_vec(), 0, 0, 0).unwrap();
    state.set_api(repo);
    let mut buffers = BufferState::new();
    let uri = format!("thumb://{}", file.hash);
    assert_eq!(
        thumb_scheme(&mut state, &mut buffers, &uri, 0).err(),
        Some(RepoError::RenderFailed)
    );
    assert!(state.is_connected());
    assert_eq!(buffers.len(), 0);
}
