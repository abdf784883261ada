//! The operations that the presentation layer invokes: each goes through
//! the connection state to the repository and hands back response
//! shapes, or stages a payload in the buffer cache and hands back the
//! URI to fetch it by.

use vstd::prelude::*;
use crate::buffer::{put_model, BufferMode, BufferState, EntryView};
use crate::connection::ApiState;
use crate::error::{RepoError, RepoResult};
use crate::file::{file_views, thumbnail_views, File, FileMetadataView, FileView, Thumbnail, ThumbnailView};
use crate::query::{query_of, Predicate};
use crate::repo::{file_with_hash, lemma_file_with_hash, no_file_with_hash, Repo, RepoView};
use crate::responses::{
    FileMetadataResponse, FromModel, ThumbnailMetadataResponse, ThumbnailMetadataView,
};
use crate::schemes::{add_once_buffer, once_uri, optional_repo, optional_wf};
use crate::sorting::{sort_files, sorted_files, SortKey};
use crate::text::parsed_tag;

verus! {

broadcast use {crate::repo::lemma_repo_view, crate::connection::lemma_client};

/// A tag predicate as the presentation layer sends it: a raw tag name
/// and whether files carrying the tag are excluded.
#[derive(Debug)]
pub struct TagQuery {
    pub name: String,
    pub negate: bool,
}

/// The predicates that a list of tag queries stands for.
pub open spec fn predicates_of(tags: Seq<TagQuery>) -> Seq<Predicate> {
    tags.map_values(|t: TagQuery| (parsed_tag(t.name@), t.negate))
}

/// The descriptive parts of a list of files.
pub open spec fn metadata_of(files: Seq<FileView>) -> Seq<FileMetadataView> {
    files.map_values(|f: FileView| f.metadata())
}

/// The views of a list of file descriptions.
pub open spec fn metadata_views(list: Seq<FileMetadataResponse>) -> Seq<FileMetadataView> {
    list.map_values(|r: FileMetadataResponse| r@)
}

/// The descriptions of a list of thumbnails.
pub open spec fn descriptions_of(rows: Seq<ThumbnailView>) -> Seq<ThumbnailMetadataView> {
    rows.map_values(
        |t: ThumbnailView| <ThumbnailMetadataResponse as FromModel<Thumbnail>>::converted(t),
    )
}

/// The views of a list of thumbnail descriptions.
pub open spec fn description_views(list: Seq<ThumbnailMetadataResponse>) -> Seq<
    ThumbnailMetadataView,
> {
    list.map_values(|r: ThumbnailMetadataResponse| r@)
}

/// What an operation on the connected repository comes to: the value
/// that `found` gives for the repository, or `UpstreamDisconnected`
/// without a connection.
pub open spec fn through<T>(repo: Option<RepoView>, found: spec_fn(RepoView) -> Result<T, RepoError>) -> Result<
    T,
    RepoError,
> {
    match repo {
        Some(r) => found(r),
        None => Err(RepoError::UpstreamDisconnected),
    }
}

fn describe_files(files: Vec<File>) -> (list: Vec<FileMetadataResponse>)
    ensures
        metadata_views(list@) == metadata_of(file_views(files@)),
{
    let mut list: Vec<FileMetadataResponse> = Vec::new();
    let mut i: usize = 0;
    while i < files.len()
        invariant
            i <= files.len(),
            metadata_views(list@) == metadata_of(file_views(files@)).take(i as int),
        decreases files.len() - i,
    {
        let response = FileMetadataResponse::from_model(files[i].metadata());
        proof {
            assert(metadata_views(list@.push(response)) =~= metadata_views(list@).push(response@));
        }
        list.push(response);
        i += 1;
        assert(metadata_views(list@) =~= metadata_of(file_views(files@)).take(i as int));
    }
    assert(metadata_of(file_views(files@)).take(i as int) =~= metadata_of(file_views(files@)));
    list
}

fn describe_thumbnails(rows: Vec<Thumbnail>) -> (list: Vec<ThumbnailMetadataResponse>)
    ensures
        description_views(list@) == descriptions_of(thumbnail_views(rows@)),
{
    let mut list: Vec<ThumbnailMetadataResponse> = Vec::new();
    let mut i: usize = 0;
    while i < rows.len()
        invariant
            i <= rows.len(),
            description_views(list@) == descriptions_of(thumbnail_views(rows@)).take(i as int),
        decreases rows.len() - i,
    {
        let response = ThumbnailMetadataResponse::from_model(rows[i].clone());
        proof {
            assert(description_views(list@.push(response)) =~= description_views(list@).push(
                response@,
            ));
        }
        list.push(response);
        i += 1;
        assert(description_views(list@) =~= descriptions_of(thumbnail_views(rows@)).take(i as int));
    }
    assert(descriptions_of(thumbnail_views(rows@)).take(i as int) =~= descriptions_of(
        thumbnail_views(rows@),
    ));
    list
}

fn pairs_of(tags: Vec<TagQuery>) -> (pairs: Vec<(String, bool)>)
    ensures
        query_of(pairs@) == predicates_of(tags@),
{
    let mut pairs: Vec<(String, bool)> = Vec::new();
    let mut i: usize = 0;
    while i < tags.len()
        invariant
            i <= tags.len(),
            query_of(pairs@) == predicates_of(tags@).take(i as int),
        decreases tags.len() - i,
    {
        let pair = (tags[i].name.clone(), tags[i].negate);
        proof {
            assert(query_of(pairs@.push(pair)) =~= query_of(pairs@).push(
                (parsed_tag(pair.0@), pair.1),
            ));
        }
        pairs.push(pair);
        i += 1;
        assert(query_of(pairs@) =~= predicates_of(tags@).take(i as int));
    }
    assert(predicates_of(tags@).take(i as int) =~= predicates_of(tags@));
    pairs
}

/// The descriptions of all files, in table order. Fails with
/// `UpstreamDisconnected` without a connection.
pub fn get_all_files(api_state: &ApiState<Repo>) -> (result: RepoResult<Vec<FileMetadataResponse>>)
    ensures
        match result {
            Ok(list) => api_state.client() matches Some(repo) && metadata_views(list@)
                == metadata_of(repo@.files),
            Err(e) => api_state.client() is None && e == RepoError::UpstreamDisconnected,
        },
{
    let repo = match api_state.api() {
        Ok(repo) => repo,
        Err(e) => {
            return Err(e);
        },
    };
    Ok(describe_files(repo.files()))
}

/// The descriptions of the files that meet every tag query, in the
/// order that the sort keys give. Fails with `UpstreamDisconnected`
/// without a connection.
pub fn find_files(tags: Vec<TagQuery>, sort_by: Vec<SortKey>, api_state: &ApiState<Repo>) -> (result:
    RepoResult<Vec<FileMetadataResponse>>)
    requires
        optional_wf(api_state.client()),
    ensures
        match result {
            Ok(list) => api_state.client() matches Some(repo) && metadata_views(list@)
                == metadata_of(sorted_files(repo@.find_files(predicates_of(tags@)), sort_by@)),
            Err(e) => api_state.client() is None && e == RepoError::UpstreamDisconnected,
        },
{
    let repo = match api_state.api() {
        Ok(repo) => repo,
        Err(e) => {
            return Err(e);
        },
    };
    Ok(describe_files(sort_files(repo.find_files_by_tags(pairs_of(tags)), &sort_by)))
}

/// What staging a payload for a single fetch comes to: on success the
/// bytes are in the cache as a one-shot entry under `key` and the URI
/// names the key; on failure the cache is as before.
pub open spec fn staged(
    before: Map<Seq<char>, EntryView>,
    key: Seq<char>,
    mime: Seq<char>,
    now: int,
    fetched: Result<Seq<u8>, RepoError>,
    after: Map<Seq<char>, EntryView>,
    result: RepoResult<String>,
) -> bool {
    match result {
        Ok(uri) => {
            &&& fetched matches Ok(bytes)
            &&& uri@ == once_uri(key)
            &&& after == put_model(
                before,
                key,
                EntryView { mime, bytes: fetched->Ok_0, created: now, mode: BufferMode::OneShot },
            )
        },
        Err(e) => fetched == Err::<Seq<u8>, RepoError>(e) && after == before,
    }
}

/// Reads the content of the first file with the content hash `hash`,
/// stages it in the buffer cache for a single fetch and returns the URI
/// to fetch it by.
///
/// Fails with `UpstreamDisconnected` without a connection, `NotFound`
/// where no file has the hash and `IntegrityError` where the bytes are
/// missing; the cache is unchanged then.
pub fn read_file_by_hash(
    hash: String,
    mime_type: String,
    api_state: &ApiState<Repo>,
    buffer_state: &mut BufferState,
    now: i64,
) -> (result: RepoResult<String>)
    requires
        optional_wf(api_state.client()),
        old(buffer_state).wf(),
    ensures
        final(buffer_state).wf(),
        staged(
            old(buffer_state)@,
            hash@,
            mime_type@,
            now as int,
            through(optional_repo(api_state.client()), |r: RepoView| r.file_bytes(hash@)),
            final(buffer_state)@,
            result,
        ),
{
    let repo = match api_state.api() {
        Ok(repo) => repo,
        Err(e) => {
            return Err(e);
        },
    };
    let content = match repo.read_file_by_hash(hash.as_str()) {
        Ok(content) => content,
        Err(e) => {
            return Err(e);
        },
    };
    Ok(add_once_buffer(buffer_state, hash, mime_type, content, now))
}

/// The thumbnails of the first file with the content hash `hash`, or
/// `NotFound` where no file has the hash.
pub open spec fn file_thumbnails(r: RepoView, hash: Seq<char>) -> Result<
    Seq<ThumbnailMetadataView>,
    RepoError,
> {
    if no_file_with_hash(r.files, hash) {
        Err(RepoError::NotFound)
    } else {
        Ok(descriptions_of(r.thumbnails_of(file_with_hash(r.files, hash).id)))
    }
}

/// The descriptions of the thumbnails of the first file with the
/// content hash `hash`, in table order.
///
/// Fails with `UpstreamDisconnected` without a connection and with
/// `NotFound` where no file has the hash.
pub fn get_file_thumbnails(hash: String, api_state: &ApiState<Repo>) -> (result: RepoResult<
    Vec<ThumbnailMetadataResponse>,
>)
    ensures
        match result {
            Ok(list) => through(
                optional_repo(api_state.client()),
                |r: RepoView| file_thumbnails(r, hash@),
            ) == Ok::<Seq<ThumbnailMetadataView>, RepoError>(description_views(list@)),
            Err(e) => through(
                optional_repo(api_state.client()),
                |r: RepoView| file_thumbnails(r, hash@),
            ) == Err::<Seq<ThumbnailMetadataView>, RepoError>(e),
        },
{
    let repo = match api_state.api() {
        Ok(repo) => repo,
        Err(e) => {
            return Err(e);
        },
    };
    let file = match repo.file_by_hash(hash.as_str()) {
        Some(file) => file,
        None => {
            return Err(RepoError::NotFound);
        },
    };
    proof {
        lemma_file_with_hash(repo@.files, file@, hash@);
    }
    Ok(describe_thumbnails(repo.thumbnails_of_file(file.id)))
}

/// Reads the bytes of the first thumbnail with the content hash `hash`,
/// stages them in the buffer cache for a single fetch and returns the
/// URI to fetch them by.
///
/// Fails with `UpstreamDisconnected` without a connection, `NotFound`
/// where no thumbnail has the hash and `IntegrityError` where the bytes
/// are missing; the cache is unchanged then.
pub fn read_thumbnail(
    hash: String,
    mime_type: String,
    api_state: &ApiState<Repo>,
    buffer_state: &mut BufferState,
    now: i64,
) -> (result: RepoResult<String>)
    requires
        optional_wf(api_state.client()),
        old(buffer_state).wf(),
    ensures
        final(buffer_state).wf(),
        staged(
            old(buffer_state)@,
            hash@,
            mime_type@,
            now as int,
            through(optional_repo(api_state.client()), |r: RepoView| r.thumbnail_bytes(hash@)),
            final(buffer_state)@,
            result,
        ),
{
    let repo = match api_state.api() {
        Ok(repo) => repo,
        Err(e) => {
            return Err(e);
        },
    };
    let content = match repo.read_thumbnail(hash.as_str()) {
        Ok(content) => content,
        Err(e) => {
            return Err(e);
        },
    };
    Ok(add_once_buffer(buffer_state, hash, mime_type, content, now))
}

} // verus!
