//! The content schemes: how a request URI of the presentation layer is
//! answered from the buffer cache and, on a miss, from the repository.

use vstd::prelude::*;
use vstd::string::*;
use crate::buffer::{
    after_read, kept, put_model, read_model, BufferMode, BufferState, EntryView,
};
use crate::connection::ApiState;
use crate::error::{RepoError, RepoResult};
use crate::repo::{file_with_hash, lemma_file_with_hash, no_file_with_hash, Repo, RepoView};
use crate::storage::copy_bytes;
use crate::text::optional_text;
use crate::thumbnails::png_type;
use crate::uri::{decode_thumb_request, strip_prefix, thumb_request, uri_parts, without_prefix};

verus! {

broadcast use {crate::repo::lemma_repo_view, crate::connection::lemma_client};

/// The answer to a content request.
#[derive(Debug)]
pub struct SchemeResponse {
    pub status: u16,
    pub mime: String,
    pub body: Vec<u8>,
}

/// What an answer holds.
pub struct ResponseView {
    pub status: int,
    pub mime: Seq<char>,
    pub body: Seq<u8>,
}

impl View for SchemeResponse {
    type V = ResponseView;

    open spec fn view(&self) -> ResponseView {
        ResponseView { status: self.status as int, mime: self.mime@, body: self.body@ }
    }
}

/// The answer that delivers a payload.
pub open spec fn delivered(mime: Seq<char>, body: Seq<u8>) -> ResponseView {
    ResponseView { status: 200, mime, body }
}

/// The answer to a request for an unknown key.
pub open spec fn not_found() -> ResponseView {
    ResponseView { status: 404, mime: "text/plain"@, body: "Resource not found".spec_bytes() }
}

/// The answer that a cache read comes to.
pub open spec fn served(entry: Option<EntryView>) -> ResponseView {
    match entry {
        Some(e) => delivered(e.mime, e.bytes),
        None => not_found(),
    }
}

/// The media type that a payload is delivered with: its own, or PNG
/// where it has none.
pub open spec fn delivery_type(mime_type: Option<Seq<char>>) -> Seq<char> {
    match mime_type {
        Some(text) => text,
        None => png_type(),
    }
}

/// What a content request for `key` comes to, and the cache afterwards.
///
/// A cached payload is delivered from the cache. On a miss the first
/// file with that content hash is read from the repository, kept in the
/// cache and delivered; an unknown hash is answered with the not-found
/// status. The request fails with `UpstreamDisconnected` without a
/// connection and with `IntegrityError` where the file's bytes are
/// missing.
pub open spec fn serve_content(
    repo: Option<RepoView>,
    cache: Map<Seq<char>, EntryView>,
    key: Seq<char>,
    now: int,
) -> (Result<ResponseView, RepoError>, Map<Seq<char>, EntryView>) {
    if cache.dom().contains(key) {
        (Ok(served(Some(cache[key]))), after_read(cache, key))
    } else {
        match repo {
            None => (Err(RepoError::UpstreamDisconnected), cache),
            Some(r) => if no_file_with_hash(r.files, key) {
                (Ok(not_found()), cache)
            } else {
                let file = file_with_hash(r.files, key);
                if r.store.has_object(file.storage_id, file.hash) {
                    let mime = delivery_type(file.mime_type);
                    let bytes = r.store.bytes_of(file.storage_id, file.hash);
                    (Ok(delivered(mime, bytes)), put_model(cache, key, kept(mime, bytes, now)))
                } else {
                    (Err(RepoError::IntegrityError), cache)
                }
            },
        }
    }
}

/// What a thumbnail request comes to, with the repository and the cache
/// afterwards.
///
/// The URI must parse and name a content hash as its domain. A cached
/// payload is delivered from the cache. On a miss a thumbnail of the
/// first file with that hash is obtained for the requested size, kept in
/// the cache under the URI and delivered; an unknown hash is answered
/// with the not-found status.
pub open spec fn serve_thumb(
    repo: Option<RepoView>,
    cache: Map<Seq<char>, EntryView>,
    uri: Seq<char>,
    now: int,
) -> (Result<ResponseView, RepoError>, Option<RepoView>, Map<Seq<char>, EntryView>) {
    match thumb_request(uri_parts(uri)) {
        Err(e) => (Err(e), repo, cache),
        Ok((hash, height, width)) => if cache.dom().contains(uri) {
            (Ok(served(Some(cache[uri]))), repo, after_read(cache, uri))
        } else {
            match repo {
                None => (Err(RepoError::UpstreamDisconnected), repo, cache),
                Some(r) => if no_file_with_hash(r.files, hash) {
                    (Ok(not_found()), repo, cache)
                } else {
                    let file = file_with_hash(r.files, hash);
                    match r.get_or_create_thumbnail(file.id, height as int, width as int) {
                        Err(e) => (Err(e), repo, cache),
                        Ok(after) => {
                            let answer = r.thumbnail_answer(file.id, height as int, width as int);
                            let mime = delivery_type(answer.0.mime_type);
                            (
                                Ok(delivered(mime, answer.1)),
                                Some(after),
                                put_model(cache, uri, kept(mime, answer.1, now)),
                            )
                        },
                    }
                },
            }
        },
    }
}

/// The view of an optional repository.
pub open spec fn optional_repo(repo: Option<Repo>) -> Option<RepoView> {
    match repo {
        Some(r) => Some(r@),
        None => None,
    }
}

/// Whether an optional repository is well formed where there is one.
pub open spec fn optional_wf(repo: Option<Repo>) -> bool {
    repo matches Some(r) ==> r@.wf()
}

fn not_found_response() -> (response: SchemeResponse)
    ensures
        response@ == not_found(),
{
    SchemeResponse {
        status: 404,
        mime: "text/plain".to_owned(),
        body: "Resource not found".as_bytes_vec(),
    }
}

fn delivery_mime(mime_type: &Option<String>) -> (mime: String)
    ensures
        mime@ == delivery_type(optional_text(*mime_type)),
{
    match mime_type {
        Some(text) => text.clone(),
        None => "image/png".to_owned(),
    }
}

/// The URI under which a one-shot payload put under `key` is fetched.
pub open spec fn once_uri(key: Seq<char>) -> Seq<char> {
    "once://"@ + key
}

/// Puts a payload into the cache for a single fetch and returns the URI
/// to fetch it by.
pub fn add_once_buffer(buffers: &mut BufferState, key: String, mime: String, buf: Vec<u8>, now: i64) -> (uri:
    String)
    requires
        old(buffers).wf(),
    ensures
        final(buffers).wf(),
        uri@ == once_uri(key@),
        final(buffers)@ == put_model(
            old(buffers)@,
            key@,
            EntryView { mime: mime@, bytes: buf@, created: now as int, mode: BufferMode::OneShot },
        ),
{
    let uri = "once://".to_owned().concat(key.as_str());
    buffers.put(key, mime, buf, BufferMode::OneShot, now);
    uri
}

/// Answers a request of the `once` scheme: the payload held under the
/// key that follows `once://`, or the not-found status. A one-shot
/// payload is consumed by the request.
pub fn once_scheme(buffers: &mut BufferState, uri: &str) -> (response: SchemeResponse)
    requires
        old(buffers).wf(),
    ensures
        final(buffers).wf(),
        final(buffers)@ == after_read(old(buffers)@, without_prefix(uri@, "once://"@)),
        response@ == served(read_model(old(buffers)@, without_prefix(uri@, "once://"@))),
{
    let key = strip_prefix(uri, "once://");
    match buffers.get(key.as_str()) {
        Some(buffer) => SchemeResponse { status: 200, mime: buffer.mime, body: buffer.buf },
        None => not_found_response(),
    }
}

/// Answers a request of the `content` scheme for the content hash that
/// follows `content://`, as [`serve_content`] describes.
pub fn content_scheme(api_state: &ApiState<Repo>, buffers: &mut BufferState, uri: &str, now: i64) -> (result:
    RepoResult<SchemeResponse>)
    requires
        old(buffers).wf(),
        optional_wf(api_state.client()),
    ensures
        final(buffers).wf(),
        final(buffers)@ == serve_content(
            optional_repo(api_state.client()),
            old(buffers)@,
            without_prefix(uri@, "content://"@),
            now as int,
        ).1,
        match result {
            Ok(response) => serve_content(
                optional_repo(api_state.client()),
                old(buffers)@,
                without_prefix(uri@, "content://"@),
                now as int,
            ).0 == Ok::<ResponseView, RepoError>(response@),
            Err(e) => serve_content(
                optional_repo(api_state.client()),
                old(buffers)@,
                without_prefix(uri@, "content://"@),
                now as int,
            ).0 == Err::<ResponseView, RepoError>(e),
        },
{
    let key = strip_prefix(uri, "content://");
    if let Some(buffer) = buffers.get(key.as_str()) {
        return Ok(SchemeResponse { status: 200, mime: buffer.mime, body: buffer.buf });
    }
    let repo = match api_state.api() {
        Ok(repo) => repo,
        Err(e) => {
            return Err(e);
        },
    };
    let file = match repo.file_by_hash(key.as_str()) {
        Some(file) => file,
        None => {
            return Ok(not_found_response());
        },
    };
    proof {
        lemma_file_with_hash(repo@.files, file@, key@);
        let k = choose|k: int| 0 <= k < repo@.files.len() && #[trigger] repo@.files[k] == file@;
        assert(repo@.files[k].id == k + 1);
    }
    let bytes = match repo.read_file(file.id) {
        Ok(bytes) => bytes,
        Err(e) => {
            return Err(e);
        },
    };
    let mime = delivery_mime(&file.mime_type);
    buffers.add_entry(key, mime.clone(), copy_bytes(&bytes), now);
    Ok(SchemeResponse { status: 200, mime, body: bytes })
}

/// Answers a request of the `thumb` scheme, as [`serve_thumb`]
/// describes: the URI names the content hash of a file as its domain
/// and may give `height` and `width` in its query.
pub fn thumb_scheme(api_state: &mut ApiState<Repo>, buffers: &mut BufferState, uri: &str, now: i64) -> (result:
    RepoResult<SchemeResponse>)
    requires
        old(buffers).wf(),
        optional_wf(old(api_state).client()),
    ensures
        final(buffers).wf(),
        optional_wf(final(api_state).client()),
        optional_repo(final(api_state).client()) == serve_thumb(
            optional_repo(old(api_state).client()),
            old(buffers)@,
            uri@,
            now as int,
        ).1,
        final(buffers)@ == serve_thumb(
            optional_repo(old(api_state).client()),
            old(buffers)@,
            uri@,
            now as int,
        ).2,
        match result {
            Ok(response) => serve_thumb(
                optional_repo(old(api_state).client()),
                old(buffers)@,
                uri@,
                now as int,
            ).0 == Ok::<ResponseView, RepoError>(response@),
            Err(e) => serve_thumb(
                optional_repo(old(api_state).client()),
                old(buffers)@,
                uri@,
                now as int,
            ).0 == Err::<ResponseView, RepoError>(e),
        },
{
    let request = match decode_thumb_request(uri) {
        Ok(request) => request,
        Err(e) => {
            return Err(e);
        },
    };
    if let Some(buffer) = buffers.get(uri) {
        return Ok(SchemeResponse { status: 200, mime: buffer.mime, body: buffer.buf });
    }
    let mut repo = match api_state.inner.take() {
        Some(repo) => repo,
        None => {
            return Err(RepoError::UpstreamDisconnected);
        },
    };
    let file = match repo.file_by_hash(request.hash.as_str()) {
        Some(file) => file,
        None => {
            api_state.inner = Some(repo);
            return Ok(not_found_response());
        },
    };
    proof {
        lemma_file_with_hash(repo@.files, file@, request.hash@);
    }
    let outcome = repo.get_or_create_thumbnail(file.id, request.height, request.width);
    api_state.inner = Some(repo);
    match outcome {
        Ok((thumbnail, bytes)) => {
            let mime = delivery_mime(&thumbnail.mime_type);
            buffers.add_entry(uri.to_owned(), mime.clone(), copy_bytes(&bytes), now);
            Ok(SchemeResponse { status: 200, mime, body: bytes })
        },
        Err(e) => Err(e),
    }
}

} // verus!
