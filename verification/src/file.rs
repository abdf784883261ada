//! File and thumbnail rows.

use vstd::prelude::*;
use crate::media_type::FileType;
use crate::text::optional_text;

verus! {

/// The lifecycle state of a file.
#[derive(Clone, Copy, Debug, PartialEq, Eq, Structural)]
pub enum FileStatus {
    Imported,
    Archived,
    Deleted,
}

impl View for FileStatus {
    type V = FileStatus;

    open spec fn view(&self) -> FileStatus {
        *self
    }
}

/// The descriptive part of a file row.
#[derive(Debug)]
pub struct FileMetadata {
    pub file_id: i64,
    pub name: Option<String>,
    pub comment: Option<String>,
    pub creation_time: i64,
    pub change_time: i64,
    pub import_time: i64,
}

/// What the descriptive part of a file row holds.
pub struct FileMetadataView {
    pub file_id: int,
    pub name: Option<Seq<char>>,
    pub comment: Option<Seq<char>>,
    pub creation_time: int,
    pub change_time: int,
    pub import_time: int,
}

impl View for FileMetadata {
    type V = FileMetadataView;

    open spec fn view(&self) -> FileMetadataView {
        FileMetadataView {
            file_id: self.file_id as int,
            name: optional_text(self.name),
            comment: optional_text(self.comment),
            creation_time: self.creation_time as int,
            change_time: self.change_time as int,
            import_time: self.import_time as int,
        }
    }
}

impl FileView {
    /// The descriptive part of this file.
    pub open spec fn metadata(self) -> FileMetadataView {
        FileMetadataView {
            file_id: self.id,
            name: self.name,
            comment: self.comment,
            creation_time: self.creation_time,
            change_time: self.change_time,
            import_time: self.import_time,
        }
    }
}

/// A file row. A file refers to one content descriptor and one storage
/// location; times are milliseconds since the epoch.
#[derive(Debug)]
pub struct File {
    pub id: i64,
    pub cd_id: i64,
    pub storage_id: i64,
    pub hash: String,
    pub file_type: FileType,
    pub mime_type: Option<String>,
    pub status: FileStatus,
    pub name: Option<String>,
    pub comment: Option<String>,
    pub creation_time: i64,
    pub change_time: i64,
    pub import_time: i64,
}

/// What a file row holds.
pub struct FileView {
    pub id: int,
    pub cd_id: int,
    pub storage_id: int,
    pub hash: Seq<char>,
    pub file_type: FileType,
    pub mime_type: Option<Seq<char>>,
    pub status: FileStatus,
    pub name: Option<Seq<char>>,
    pub comment: Option<Seq<char>>,
    pub creation_time: int,
    pub change_time: int,
    pub import_time: int,
}

impl View for File {
    type V = FileView;

    open spec fn view(&self) -> FileView {
        FileView {
            id: self.id as int,
            cd_id: self.cd_id as int,
            storage_id: self.storage_id as int,
            hash: self.hash@,
            file_type: self.file_type,
            mime_type: optional_text(self.mime_type),
            status: self.status,
            name: optional_text(self.name),
            comment: optional_text(self.comment),
            creation_time: self.creation_time as int,
            change_time: self.change_time as int,
            import_time: self.import_time as int,
        }
    }
}

/// A copy of an optional string.
pub fn copy_optional(text: &Option<String>) -> (copy: Option<String>)
    ensures
        copy == *text,
{
    match text {
        Some(s) => Some(s.clone()),
        None => None,
    }
}

impl Clone for File {
    fn clone(&self) -> (copy: Self)
        ensures
            copy == *self,
    {
        File {
            id: self.id,
            cd_id: self.cd_id,
            storage_id: self.storage_id,
            hash: self.hash.clone(),
            file_type: self.file_type,
            mime_type: copy_optional(&self.mime_type),
            status: self.status,
            name: copy_optional(&self.name),
            comment: copy_optional(&self.comment),
            creation_time: self.creation_time,
            change_time: self.change_time,
            import_time: self.import_time,
        }
    }
}

impl File {
    /// The descriptive part of this file.
    pub fn metadata(&self) -> (metadata: FileMetadata)
        ensures
            metadata@ == self@.metadata(),
    {
        FileMetadata {
            file_id: self.id,
            name: copy_optional(&self.name),
            comment: copy_optional(&self.comment),
            creation_time: self.creation_time,
            change_time: self.change_time,
            import_time: self.import_time,
        }
    }
}

/// The views of a list of file rows.
pub open spec fn file_views(rows: Seq<File>) -> Seq<FileView> {
    rows.map_values(|f: File| f@)
}

/// The views of a file list that grew by one row.
pub proof fn lemma_file_views_push(rows: Seq<File>, row: File)
    ensures
        file_views(rows.push(row)) == file_views(rows).push(row@),
{
    assert(file_views(rows.push(row)) =~= file_views(rows).push(row@));
}

/// A thumbnail row: a rendering of a file, stored as content of its own.
/// It records the content hash of the file it renders. Height and width
/// are those of the rendering, not of the request that caused it.
#[derive(Debug)]
pub struct Thumbnail {
    pub id: i64,
    pub file_id: i64,
    pub file_hash: String,
    pub cd_id: i64,
    pub storage_id: i64,
    pub hash: String,
    pub height: u32,
    pub width: u32,
    pub mime_type: Option<String>,
}

/// What a thumbnail row holds.
pub struct ThumbnailView {
    pub id: int,
    pub file_id: int,
    pub file_hash: Seq<char>,
    pub cd_id: int,
    pub storage_id: int,
    pub hash: Seq<char>,
    pub height: int,
    pub width: int,
    pub mime_type: Option<Seq<char>>,
}

impl View for Thumbnail {
    type V = ThumbnailView;

    open spec fn view(&self) -> ThumbnailView {
        ThumbnailView {
            id: self.id as int,
            file_id: self.file_id as int,
            file_hash: self.file_hash@,
            cd_id: self.cd_id as int,
            storage_id: self.storage_id as int,
            hash: self.hash@,
            height: self.height as int,
            width: self.width as int,
            mime_type: optional_text(self.mime_type),
        }
    }
}

impl Clone for Thumbnail {
    fn clone(&self) -> (copy: Self)
        ensures
            copy == *self,
    {
        Thumbnail {
            id: self.id,
            file_id: self.file_id,
            file_hash: self.file_hash.clone(),
            cd_id: self.cd_id,
            storage_id: self.storage_id,
            hash: self.hash.clone(),
            height: self.height,
            width: self.width,
            mime_type: copy_optional(&self.mime_type),
        }
    }
}

/// The views of a list of thumbnail rows.
pub open spec fn thumbnail_views(rows: Seq<Thumbnail>) -> Seq<ThumbnailView> {
    rows.map_values(|t: Thumbnail| t@)
}

/// The views of a thumbnail list that grew by one row.
pub proof fn lemma_thumbnail_views_push(rows: Seq<Thumbnail>, row: Thumbnail)
    ensures
        thumbnail_views(rows.push(row)) == thumbnail_views(rows).push(row@),
{
    assert(thumbnail_views(rows.push(row)) =~= thumbnail_views(rows).push(row@));
}

/// The size tiers that thumbnails are rendered at.
#[derive(Clone, Copy, Debug, PartialEq, Eq, Structural)]
pub enum ThumbnailSize {
    Small,
    Medium,
    Large,
}

impl ThumbnailSize {
    /// The height and width of the box that a rendering of this tier
    /// fits into.
    pub open spec fn spec_dimensions(self) -> (u32, u32) {
        match self {
            ThumbnailSize::Small => (128u32, 128u32),
            ThumbnailSize::Medium => (256u32, 256u32),
            ThumbnailSize::Large => (512u32, 512u32),
        }
    }

    /// The height and width of the box that a rendering of this tier
    /// fits into.
    pub fn dimensions(&self) -> (size: (u32, u32))
        ensures
            size == self.spec_dimensions(),
    {
        match self {
            ThumbnailSize::Small => (128, 128),
            ThumbnailSize::Medium => (256, 256),
            ThumbnailSize::Large => (512, 512),
        }
    }
}

/// The smallest stored dimension that satisfies a request for
/// `requested`: four fifths of it, rounded down.
pub open spec fn window_low(requested: int) -> int {
    requested * 4 / 5
}

/// The largest stored dimension that satisfies a request for
/// `requested`: six fifths of it, rounded down.
pub open spec fn window_high(requested: int) -> int {
    requested * 6 / 5
}

/// Whether a stored dimension lies in the tolerance window of a
/// requested one, bounds included.
pub open spec fn within_window(stored: int, requested: int) -> bool {
    window_low(requested) <= stored <= window_high(requested)
}

/// Whether a thumbnail of the given stored size satisfies a request for
/// the given size: both dimensions lie in their windows.
pub open spec fn satisfies(
    stored_height: int,
    stored_width: int,
    requested_height: int,
    requested_width: int,
) -> bool {
    within_window(stored_height, requested_height) && within_window(stored_width, requested_width)
}

/// Whether a stored dimension lies in the tolerance window of a
/// requested one.
pub fn in_window(stored: u32, requested: u32) -> (inside: bool)
    ensures
        inside == within_window(stored as int, requested as int),
{
    let low: u64 = (requested as u64) * 4 / 5;
    let high: u64 = (requested as u64) * 6 / 5;
    low <= stored as u64 && stored as u64 <= high
}

/// Whether a thumbnail of the given stored size satisfies a request for
/// the given size.
pub fn size_satisfies(
    stored_height: u32,
    stored_width: u32,
    requested_height: u32,
    requested_width: u32,
) -> (ok: bool)
    ensures
        ok == satisfies(
            stored_height as int,
            stored_width as int,
            requested_height as int,
            requested_width as int,
        ),
{
    in_window(stored_height, requested_height) && in_window(stored_width, requested_width)
}

} // verus!
