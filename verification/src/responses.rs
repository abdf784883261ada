//! The shapes in which rows are handed to the presentation layer, and
//! the conversion of each row into its shape.

use vstd::prelude::*;
use crate::catalog::{Namespace, NamespaceView, Tag, TagView};
use crate::file::{self, File, FileMetadata, FileMetadataView, FileView, Thumbnail, ThumbnailView};
use crate::text::optional_text;

verus! {

/// The conversion of a row of type `M` into the shape `Self`.
pub trait FromModel<M: View>: View + Sized {
    /// What the shape holds for a row that holds `model`.
    spec fn converted(model: M::V) -> Self::V;

    /// Converts a row into its shape.
    fn from_model(model: M) -> (response: Self)
        ensures
            response@ == Self::converted(model@),
    ;
}

/// The descriptive part of a file.
#[derive(Debug)]
pub struct FileMetadataResponse {
    pub file_id: i64,
    pub name: Option<String>,
    pub comment: Option<String>,
    pub creation_time: i64,
    pub change_time: i64,
    pub import_time: i64,
}

impl View for FileMetadataResponse {
    type V = FileMetadataView;

    open spec fn view(&self) -> FileMetadataView {
        FileMetadataView {
            file_id: self.file_id as int,
            name: optional_text(self.name),
            comment: optional_text(self.comment),
            creation_time: self.creation_time as int,
            change_time: self.change_time as int,
            import_time: self.import_time as int,
        }
    }
}

impl FromModel<FileMetadata> for FileMetadataResponse {
    open spec fn converted(model: FileMetadataView) -> FileMetadataView {
        model
    }

    fn from_model(metadata: FileMetadata) -> (response: Self) {
        Self {
            file_id: metadata.file_id,
            name: metadata.name,
            comment: metadata.comment,
            creation_time: metadata.creation_time,
            change_time: metadata.change_time,
            import_time: metadata.import_time,
        }
    }
}

/// The lifecycle state of a file, as handed out.
#[derive(Clone, Copy, Debug, PartialEq, Eq, Structural)]
pub enum FileStatus {
    Imported,
    Archived,
    Deleted,
}

impl View for FileStatus {
    type V = FileStatus;

    open spec fn view(&self) -> FileStatus {
        *self
    }
}

impl FromModel<file::FileStatus> for FileStatus {
    open spec fn converted(model: file::FileStatus) -> FileStatus {
        match model {
            file::FileStatus::Imported => FileStatus::Imported,
            file::FileStatus::Archived => FileStatus::Archived,
            file::FileStatus::Deleted => FileStatus::Deleted,
        }
    }

    fn from_model(status: file::FileStatus) -> (response: Self) {
        match status {
            file::FileStatus::Imported => FileStatus::Imported,
            file::FileStatus::Archived => FileStatus::Archived,
            file::FileStatus::Deleted => FileStatus::Deleted,
        }
    }
}

/// The identifying part of a file.
#[derive(Debug)]
pub struct FileBasicDataResponse {
    pub id: i64,
    pub status: FileStatus,
    pub cd: String,
    pub mime_type: Option<String>,
}

/// What the identifying part of a file holds.
pub struct FileBasicDataView {
    pub id: int,
    pub status: FileStatus,
    pub cd: Seq<char>,
    pub mime_type: Option<Seq<char>>,
}

impl View for FileBasicDataResponse {
    type V = FileBasicDataView;

    open spec fn view(&self) -> FileBasicDataView {
        FileBasicDataView {
            id: self.id as int,
            status: self.status,
            cd: self.cd@,
            mime_type: optional_text(self.mime_type),
        }
    }
}

impl FromModel<File> for FileBasicDataResponse {
    open spec fn converted(model: FileView) -> FileBasicDataView {
        FileBasicDataView {
            id: model.id,
            status: <FileStatus as FromModel<file::FileStatus>>::converted(model.status),
            cd: model.hash,
            mime_type: model.mime_type,
        }
    }

    fn from_model(file: File) -> (response: Self) {
        FileBasicDataResponse {
            id: file.id,
            status: FileStatus::from_model(file.status),
            cd: file.hash,
            mime_type: file.mime_type,
        }
    }
}

/// A tag with the name of its namespace.
#[derive(Debug)]
pub struct TagResponse {
    pub id: i64,
    pub namespace: Option<String>,
    pub name: String,
}

/// What a tag holds as handed out.
pub struct TagResponseView {
    pub id: int,
    pub namespace: Option<Seq<char>>,
    pub name: Seq<char>,
}

impl View for TagResponse {
    type V = TagResponseView;

    open spec fn view(&self) -> TagResponseView {
        TagResponseView {
            id: self.id as int,
            namespace: optional_text(self.namespace),
            name: self.name@,
        }
    }
}

impl FromModel<Tag> for TagResponse {
    open spec fn converted(model: TagView) -> TagResponseView {
        TagResponseView { id: model.id, namespace: model.key().0, name: model.name }
    }

    fn from_model(model: Tag) -> (response: Self) {
        let namespace = match model.namespace {
            Some(n) => Some(n.name),
            None => None,
        };
        Self { id: model.id, namespace, name: model.name }
    }
}

/// The size and media type of a thumbnail, with the content hash of the
/// file it renders.
#[derive(Debug)]
pub struct ThumbnailMetadataResponse {
    pub file_hash: String,
    pub height: u32,
    pub width: u32,
    pub mime_type: Option<String>,
}

/// What the description of a thumbnail holds.
pub struct ThumbnailMetadataView {
    pub file_hash: Seq<char>,
    pub height: int,
    pub width: int,
    pub mime_type: Option<Seq<char>>,
}

impl View for ThumbnailMetadataResponse {
    type V = ThumbnailMetadataView;

    open spec fn view(&self) -> ThumbnailMetadataView {
        ThumbnailMetadataView {
            file_hash: self.file_hash@,
            height: self.height as int,
            width: self.width as int,
            mime_type: optional_text(self.mime_type),
        }
    }
}

impl FromModel<Thumbnail> for ThumbnailMetadataResponse {
    open spec fn converted(model: ThumbnailView) -> ThumbnailMetadataView {
        ThumbnailMetadataView {
            file_hash: model.file_hash,
            height: model.height,
            width: model.width,
            mime_type: model.mime_type,
        }
    }

    fn from_model(model: Thumbnail) -> (response: Self) {
        Self {
            file_hash: model.file_hash,
            height: model.height,
            width: model.width,
            mime_type: model.mime_type,
        }
    }
}

/// A namespace.
#[derive(Debug)]
pub struct NamespaceResponse {
    pub id: i64,
    pub name: String,
}

impl View for NamespaceResponse {
    type V = NamespaceView;

    open spec fn view(&self) -> NamespaceView {
        NamespaceView { id: self.id as int, name: self.name@ }
    }
}

impl FromModel<Namespace> for NamespaceResponse {
    open spec fn converted(model: NamespaceView) -> NamespaceView {
        model
    }

    fn from_model(model: Namespace) -> (response: Self) {
        Self { id: model.id, name: model.name }
    }
}

} // verus!
