//! The repository facade: storage locations, files, tags and thumbnails
//! behind one handle.

use vstd::prelude::*;
use crate::catalog::{CatalogView, TagCatalog, MAX_ROWS};
use crate::digest::{content_hash, hash_content};
use crate::error::{RepoError, RepoResult};
use crate::file::{
    file_views, lemma_file_views_push, thumbnail_views, File, FileStatus, FileView, Thumbnail,
    ThumbnailView,
};
use crate::media_type::{
    classified, classify, media_of_path, media_type_of_path, parse_mime, parsed_mime, FileType,
};
use crate::storage::{
    first_with_path, lemma_discard, lemma_store, none_with_path, storage_views, ContentStore,
    Storage, StorageView, StoreView,
};
use crate::text::optional_text;

verus! {

/// Whether the descriptor `cd_id` of `store` stands for `hash` in the
/// location `storage_id`.
pub open spec fn refers_to(store: StoreView, cd_id: int, storage_id: int, hash: Seq<char>) -> bool {
    &&& 1 <= cd_id <= store.descriptors.len()
    &&& store.descriptors[cd_id - 1].storage_id == storage_id
    &&& store.descriptors[cd_id - 1].hash == hash
}

/// The invariant of the file table: ids are positions counted from one
/// and every file resolves to a descriptor of its location.
pub open spec fn files_wf(store: StoreView, files: Seq<FileView>) -> bool {
    &&& files.len() <= MAX_ROWS
    &&& forall|i: int| 0 <= i < files.len() ==> (#[trigger] files[i]).id == i + 1
    &&& forall|i: int|
        0 <= i < files.len() ==> refers_to(
            store,
            (#[trigger] files[i]).cd_id,
            files[i].storage_id,
            files[i].hash,
        )
}

/// The invariant of the thumbnail table: ids are positions counted from
/// one, every thumbnail belongs to a file, records that file's content
/// hash and resolves to a descriptor.
pub open spec fn thumbnails_wf(store: StoreView, files: Seq<FileView>, rows: Seq<ThumbnailView>) -> bool {
    &&& rows.len() <= MAX_ROWS
    &&& forall|i: int| 0 <= i < rows.len() ==> (#[trigger] rows[i]).id == i + 1
    &&& forall|i: int|
        0 <= i < rows.len() ==> 1 <= (#[trigger] rows[i]).file_id <= files.len() && rows[i].file_hash
            == files[rows[i].file_id - 1].hash
    &&& forall|i: int|
        0 <= i < rows.len() ==> refers_to(
            store,
            (#[trigger] rows[i]).cd_id,
            rows[i].storage_id,
            rows[i].hash,
        )
}

/// The invariant of the link table: every link joins a file and a tag
/// that exist, and no link occurs twice.
pub open spec fn links_wf(file_count: int, tag_count: int, links: Seq<(int, int)>) -> bool {
    &&& forall|i: int|
        0 <= i < links.len() ==> 1 <= (#[trigger] links[i]).0 <= file_count && 1 <= links[i].1
            <= tag_count
    &&& links.no_duplicates()
}

/// Whether a designated storage location, if one is set, is a row of
/// the location table.
pub open spec fn designated(store: StoreView, location: Option<StorageView>) -> bool {
    location matches Some(row) ==> 1 <= row.id <= store.storages.len() && store.storages[row.id
        - 1] == row
}

/// Whether `after` holds every location and descriptor row of `before`
/// in the same place.
pub open spec fn extends(before: StoreView, after: StoreView) -> bool {
    &&& before.storages.len() <= after.storages.len()
    &&& before.descriptors.len() <= after.descriptors.len()
    &&& forall|i: int|
        0 <= i < before.storages.len() ==> #[trigger] after.storages[i] == before.storages[i]
    &&& forall|i: int|
        0 <= i < before.descriptors.len() ==> #[trigger] after.descriptors[i]
            == before.descriptors[i]
}

/// Whether `row` is the first of `rows`, in order, whose content hash is
/// `hash`.
pub open spec fn first_file_with_hash(rows: Seq<FileView>, row: FileView, hash: Seq<char>) -> bool {
    exists|i: int|
        0 <= i < rows.len() && #[trigger] rows[i] == row && row.hash == hash && forall|j: int|
            0 <= j < i ==> (#[trigger] rows[j]).hash != hash
}

/// Whether none of `rows` has the content hash `hash`.
pub open spec fn no_file_with_hash(rows: Seq<FileView>, hash: Seq<char>) -> bool {
    forall|j: int| 0 <= j < rows.len() ==> (#[trigger] rows[j]).hash != hash
}

/// The first file among `rows`, in order, whose content hash is `hash`,
/// where there is one.
pub open spec fn file_with_hash(rows: Seq<FileView>, hash: Seq<char>) -> FileView {
    choose|row: FileView| first_file_with_hash(rows, row, hash)
}

/// The first file with a hash is unique.
pub proof fn lemma_file_with_hash(rows: Seq<FileView>, row: FileView, hash: Seq<char>)
    requires
        first_file_with_hash(rows, row, hash),
    ensures
        file_with_hash(rows, hash) == row,
        !no_file_with_hash(rows, hash),
{
    let other = file_with_hash(rows, hash);
    let i = choose|i: int|
        0 <= i < rows.len() && #[trigger] rows[i] == row && row.hash == hash && forall|j: int|
            0 <= j < i ==> (#[trigger] rows[j]).hash != hash;
    let k = choose|k: int|
        0 <= k < rows.len() && #[trigger] rows[k] == other && other.hash == hash && forall|j: int|
            0 <= j < k ==> (#[trigger] rows[j]).hash != hash;
    assert(rows[i].hash == hash);
    assert(rows[k].hash == hash);
    assert(i == k);
}

/// The mathematical content of a repository.
pub struct RepoView {
    pub store: StoreView,
    pub catalog: CatalogView,
    pub files: Seq<FileView>,
    pub links: Seq<(int, int)>,
    pub thumbnails: Seq<ThumbnailView>,
    pub main_storage: Option<StorageView>,
    pub thumbnail_storage: Option<StorageView>,
}

impl RepoView {
    /// The invariant of a repository.
    pub open spec fn wf(self) -> bool {
        &&& self.store.wf()
        &&& self.catalog.wf()
        &&& files_wf(self.store, self.files)
        &&& thumbnails_wf(self.store, self.files, self.thumbnails)
        &&& links_wf(self.files.len() as int, self.catalog.tags.len() as int, self.links)
        &&& designated(self.store, self.main_storage)
        &&& designated(self.store, self.thumbnail_storage)
    }

    /// The repository after a file row has been added for content with
    /// the given hash, stored in the location `storage_id`.
    pub open spec fn insert_file(
        self,
        storage_id: int,
        hash: Seq<char>,
        bytes: Seq<u8>,
        mime_type: Option<Seq<char>>,
        file_type: FileType,
        creation_time: int,
        change_time: int,
        import_time: int,
    ) -> RepoView {
        let store = self.store.store(storage_id, hash, bytes);
        RepoView {
            store,
            files: self.files.push(
                FileView {
                    id: self.files.len() as int + 1,
                    cd_id: store.descriptor_for(storage_id, hash).id,
                    storage_id,
                    hash,
                    file_type,
                    mime_type,
                    status: FileStatus::Imported,
                    name: None,
                    comment: None,
                    creation_time,
                    change_time,
                    import_time,
                },
            ),
            ..self
        }
    }

    /// Whether `insert_file` can run for content with the given hash:
    /// a main storage is set, and the descriptor and file tables have
    /// room.
    pub open spec fn can_insert_file(self, hash: Seq<char>) -> bool {
        &&& self.main_storage is Some
        &&& self.files.len() < MAX_ROWS
        &&& self.store.can_store(self.main_storage->0.id, hash)
    }

    /// The error that adding a file for content with the given hash
    /// fails with, where it cannot run.
    pub open spec fn insert_file_error(self, hash: Seq<char>) -> RepoError {
        if self.main_storage is None {
            RepoError::StorageUnavailable
        } else {
            RepoError::CapacityExceeded
        }
    }

    /// The bytes of the first file whose content hash is `hash`, or the
    /// error that reading them fails with: `NotFound` where no file has
    /// that hash, `IntegrityError` where its bytes are missing.
    pub open spec fn file_bytes(self, hash: Seq<char>) -> Result<Seq<u8>, RepoError> {
        if no_file_with_hash(self.files, hash) {
            Err(RepoError::NotFound)
        } else {
            let file = file_with_hash(self.files, hash);
            if self.store.has_object(file.storage_id, file.hash) {
                Ok(self.store.bytes_of(file.storage_id, file.hash))
            } else {
                Err(RepoError::IntegrityError)
            }
        }
    }

    /// Whether the file `file_id` exists.
    pub open spec fn has_file(self, file_id: int) -> bool {
        1 <= file_id <= self.files.len()
    }
}

/// Storing content leaves every location and descriptor row in place.
pub proof fn lemma_store_extends(s: StoreView, storage_id: int, hash: Seq<char>, bytes: Seq<u8>)
    ensures
        extends(s, s.store(storage_id, hash, bytes)),
{
}

/// What refers to a descriptor keeps doing so when the store grows.
pub proof fn lemma_extends_keeps(before: StoreView, after: StoreView, r: RepoView)
    requires
        extends(before, after),
        r.store == before,
        r.wf(),
        after.wf(),
    ensures
        (RepoView { store: after, ..r }).wf(),
{
    let t = RepoView { store: after, ..r };
    assert forall|i: int| 0 <= i < t.files.len() implies refers_to(
        after,
        (#[trigger] t.files[i]).cd_id,
        t.files[i].storage_id,
        t.files[i].hash,
    ) by {
        assert(refers_to(before, r.files[i].cd_id, r.files[i].storage_id, r.files[i].hash));
        assert(after.descriptors[r.files[i].cd_id - 1] == before.descriptors[r.files[i].cd_id - 1]);
    }
    assert forall|i: int| 0 <= i < t.thumbnails.len() implies refers_to(
        after,
        (#[trigger] t.thumbnails[i]).cd_id,
        t.thumbnails[i].storage_id,
        t.thumbnails[i].hash,
    ) by {
        assert(refers_to(
            before,
            r.thumbnails[i].cd_id,
            r.thumbnails[i].storage_id,
            r.thumbnails[i].hash,
        ));
        assert(after.descriptors[r.thumbnails[i].cd_id - 1] == before.descriptors[r.thumbnails[i].cd_id
            - 1]);
    }
    if let Some(row) = r.main_storage {
        assert(after.storages[row.id - 1] == before.storages[row.id - 1]);
    }
    if let Some(row) = r.thumbnail_storage {
        assert(after.storages[row.id - 1] == before.storages[row.id - 1]);
    }
}

/// Adding a file keeps the repository well formed.
pub proof fn lemma_insert_file(
    r: RepoView,
    storage_id: int,
    hash: Seq<char>,
    bytes: Seq<u8>,
    mime_type: Option<Seq<char>>,
    file_type: FileType,
    creation_time: int,
    change_time: int,
    import_time: int,
)
    requires
        r.wf(),
        r.files.len() < MAX_ROWS,
        r.store.can_store(storage_id, hash),
    ensures
        r.insert_file(
            storage_id,
            hash,
            bytes,
            mime_type,
            file_type,
            creation_time,
            change_time,
            import_time,
        ).wf(),
{
    let store = r.store.store(storage_id, hash, bytes);
    lemma_store(r.store, storage_id, hash, bytes);
    lemma_store_extends(r.store, storage_id, hash, bytes);
    lemma_extends_keeps(r.store, store, r);
    let t = r.insert_file(
        storage_id,
        hash,
        bytes,
        mime_type,
        file_type,
        creation_time,
        change_time,
        import_time,
    );
    let mid = RepoView { store, ..r };
    let d = store.descriptor_for(storage_id, hash);
    let k = choose|k: int|
        0 <= k < store.descriptors.len() && (#[trigger] store.descriptors[k]).storage_id
            == storage_id && store.descriptors[k].hash == hash;
    assert(d == store.descriptors[k]);
    assert(d.id == k + 1);
    assert forall|i: int| 0 <= i < t.files.len() implies refers_to(
        store,
        (#[trigger] t.files[i]).cd_id,
        t.files[i].storage_id,
        t.files[i].hash,
    ) by {
        if i < r.files.len() {
            assert(t.files[i] == mid.files[i]);
        }
    }
    assert forall|i: int| 0 <= i < t.files.len() implies (#[trigger] t.files[i]).id == i + 1 by {
        if i < r.files.len() {
            assert(t.files[i] == mid.files[i]);
        }
    }
}

/// Round trip: a file added for content that its location did not hold
/// yet reads back as exactly that content.
pub proof fn lemma_added_file_reads_back(
    r: RepoView,
    storage_id: int,
    hash: Seq<char>,
    bytes: Seq<u8>,
    mime_type: Option<Seq<char>>,
    file_type: FileType,
    creation_time: int,
    change_time: int,
    import_time: int,
)
    requires
        r.wf(),
        r.files.len() < MAX_ROWS,
        r.store.can_store(storage_id, hash),
        !r.store.has_descriptor(storage_id, hash),
    ensures
        ({
            let after = r.insert_file(
                storage_id,
                hash,
                bytes,
                mime_type,
                file_type,
                creation_time,
                change_time,
                import_time,
            );
            let file = after.files.last();
            &&& file.storage_id == storage_id
            &&& file.hash == hash
            &&& file.status == FileStatus::Imported
            &&& after.store.holds(file.storage_id, file.hash, bytes)
        }),
{
    lemma_store(r.store, storage_id, hash, bytes);
}

/// The views of a list of links.
pub open spec fn link_views(links: Seq<(i64, i64)>) -> Seq<(int, int)> {
    links.map_values(|l: (i64, i64)| (l.0 as int, l.1 as int))
}

/// A repository: storage locations and content, the tag catalog, files,
/// the links between files and tags, thumbnails, and the two designated
/// storage locations.
pub struct Repo {
    pub(crate) store: ContentStore,
    pub(crate) catalog: TagCatalog,
    pub(crate) files: Vec<File>,
    pub(crate) links: Vec<(i64, i64)>,
    pub(crate) thumbnails: Vec<Thumbnail>,
    pub(crate) main_storage: Option<Storage>,
    pub(crate) thumbnail_storage: Option<Storage>,
}

/// The view of an optional storage location.
pub open spec fn optional_storage(location: Option<Storage>) -> Option<StorageView> {
    match location {
        Some(row) => Some(row@),
        None => None,
    }
}

impl View for Repo {
    type V = RepoView;

    closed spec fn view(&self) -> RepoView {
        RepoView {
            store: self.store@,
            catalog: self.catalog@,
            files: file_views(self.files@),
            links: link_views(self.links@),
            thumbnails: thumbnail_views(self.thumbnails@),
            main_storage: optional_storage(self.main_storage),
            thumbnail_storage: optional_storage(self.thumbnail_storage),
        }
    }
}

/// What the view of a repository is made of.
pub(crate) broadcast proof fn lemma_repo_view(repo: &Repo)
    ensures
        #[trigger] repo@ == (RepoView {
            store: repo.store@,
            catalog: repo.catalog@,
            files: file_views(repo.files@),
            links: link_views(repo.links@),
            thumbnails: thumbnail_views(repo.thumbnails@),
            main_storage: optional_storage(repo.main_storage),
            thumbnail_storage: optional_storage(repo.thumbnail_storage),
        }),
{
}

impl Repo {
    /// An empty repository without designated storage locations.
    pub fn new() -> (repo: Self)
        ensures
            repo@.wf(),
            repo@.store.storages.len() == 0,
            repo@.store.descriptors.len() == 0,
            repo@.store.objects.len() == 0,
            repo@.catalog.namespaces.len() == 0,
            repo@.catalog.tags.len() == 0,
            repo@.files.len() == 0,
            repo@.links.len() == 0,
            repo@.thumbnails.len() == 0,
            repo@.main_storage is None,
            repo@.thumbnail_storage is None,
    {
        Repo {
            store: ContentStore::new(),
            catalog: TagCatalog::new(),
            files: Vec::new(),
            links: Vec::new(),
            thumbnails: Vec::new(),
            main_storage: None,
            thumbnail_storage: None,
        }
    }

    /// All storage locations, in table order.
    pub fn storages(&self) -> (rows: Vec<Storage>)
        ensures
            storage_views(rows@) == self@.store.storages,
    {
        self.store.storages()
    }

    /// The first storage location, in table order, whose root path is
    /// `path`.
    pub fn storage_by_path(&self, path: &str) -> (found: Option<Storage>)
        ensures
            match found {
                Some(row) => first_with_path(self@.store.storages, row@, path@),
                None => none_with_path(self@.store.storages, path@),
            },
    {
        self.store.storage_by_path(path)
    }

    /// Designates the location called `name` as main storage; where no
    /// location has that name, none is designated afterwards.
    pub fn set_main_storage(&mut self, name: &str)
        requires
            old(self)@.wf(),
        ensures
            final(self)@.wf(),
            final(self)@ == (RepoView {
                main_storage: if old(self)@.store.has_storage_named(name@) {
                    Some(old(self)@.store.storage_named(name@))
                } else {
                    None
                },
                ..old(self)@
            }),
    {
        let found = self.store.storage_by_name(name);
        proof {
            if found.is_some() {
                let k = choose|k: int|
                    0 <= k < self@.store.storages.len() && (#[trigger] self@.store.storages[k]).name
                        == name@;
                assert(self@.store.storages[k].id == k + 1);
            }
        }
        self.main_storage = found;
    }

    /// Designates the location called `name` as thumbnail storage;
    /// where no location has that name, none is designated afterwards.
    pub fn set_thumbnail_storage(&mut self, name: &str)
        requires
            old(self)@.wf(),
        ensures
            final(self)@.wf(),
            final(self)@ == (RepoView {
                thumbnail_storage: if old(self)@.store.has_storage_named(name@) {
                    Some(old(self)@.store.storage_named(name@))
                } else {
                    None
                },
                ..old(self)@
            }),
    {
        let found = self.store.storage_by_name(name);
        proof {
            if found.is_some() {
                let k = choose|k: int|
                    0 <= k < self@.store.storages.len() && (#[trigger] self@.store.storages[k]).name
                        == name@;
                assert(self@.store.storages[k].id == k + 1);
            }
        }
        self.thumbnail_storage = found;
    }

    /// Adds a storage location. Fails with `Conflict` where the name is
    /// taken, else with `CapacityExceeded` where the table is full.
    pub fn add_storage(&mut self, name: &str, path: &str) -> (result: RepoResult<Storage>)
        requires
            old(self)@.wf(),
        ensures
            final(self)@.wf(),
            match result {
                Ok(row) => {
                    &&& !old(self)@.store.has_storage_named(name@)
                    &&& old(self)@.store.storages.len() < MAX_ROWS
                    &&& final(self)@ == (RepoView {
                        store: old(self)@.store.add_storage(name@, path@),
                        ..old(self)@
                    })
                    &&& row@ == final(self)@.store.storages.last()
                },
                Err(e) => {
                    &&& final(self)@ == old(self)@
                    &&& e == if old(self)@.store.has_storage_named(name@) {
                        RepoError::Conflict
                    } else {
                        RepoError::CapacityExceeded
                    }
                    &&& old(self)@.store.has_storage_named(name@) || old(self)@.store.storages.len()
                        >= MAX_ROWS
                },
            },
    {
        let result = self.store.add_storage(name, path);
        proof {
            if result.is_ok() {
                lemma_extends_keeps(old(self)@.store, self@.store, old(self)@);
            }
        }
        result
    }

    /// The main storage location, or `StorageUnavailable` where none is
    /// designated.
    pub fn get_main_storage(&self) -> (result: RepoResult<&Storage>)
        ensures
            match result {
                Ok(row) => self@.main_storage == Some(row@),
                Err(e) => self@.main_storage is None && e == RepoError::StorageUnavailable,
            },
    {
        match &self.main_storage {
            Some(row) => Ok(row),
            None => Err(RepoError::StorageUnavailable),
        }
    }

    /// The thumbnail storage location, or `StorageUnavailable` where
    /// none is designated.
    pub fn get_thumbnail_storage(&self) -> (result: RepoResult<&Storage>)
        ensures
            match result {
                Ok(row) => self@.thumbnail_storage == Some(row@),
                Err(e) => self@.thumbnail_storage is None && e == RepoError::StorageUnavailable,
            },
    {
        match &self.thumbnail_storage {
            Some(row) => Ok(row),
            None => Err(RepoError::StorageUnavailable),
        }
    }

    /// Adds a file for content whose hash, media type and file type are
    /// already known, storing the content in the main storage location.
    ///
    /// Fails with `StorageUnavailable` where no main storage is
    /// designated, else with `CapacityExceeded` where a table is full;
    /// nothing is changed then.
    pub fn insert_file(
        &mut self,
        hash: String,
        content: Vec<u8>,
        mime_type: Option<String>,
        file_type: FileType,
        creation_time: i64,
        change_time: i64,
        import_time: i64,
    ) -> (result: RepoResult<File>)
        requires
            old(self)@.wf(),
        ensures
            final(self)@.wf(),
            match result {
                Ok(file) => {
                    &&& old(self)@.can_insert_file(hash@)
                    &&& final(self)@ == old(self)@.insert_file(
                        old(self)@.main_storage->0.id,
                        hash@,
                        content@,
                        optional_text(mime_type),
                        file_type,
                        creation_time as int,
                        change_time as int,
                        import_time as int,
                    )
                    &&& file@ == final(self)@.files.last()
                },
                Err(e) => {
                    &&& !old(self)@.can_insert_file(hash@)
                    &&& e == old(self)@.insert_file_error(hash@)
                    &&& final(self)@ == old(self)@
                },
            },
    {
        let storage_id = match &self.main_storage {
            Some(row) => row.id,
            None => {
                return Err(RepoError::StorageUnavailable);
            },
        };
        if self.files.len() >= MAX_ROWS {
            return Err(RepoError::CapacityExceeded);
        }
        let ghost before = self@;
        let descriptor = match self.store.store_hashed(storage_id, hash, content) {
            Ok(row) => row,
            Err(e) => {
                return Err(RepoError::CapacityExceeded);
            },
        };
        proof {
            lemma_insert_file(
                before,
                storage_id as int,
                hash@,
                content@,
                optional_text(mime_type),
                file_type,
                creation_time as int,
                change_time as int,
                import_time as int,
            );
        }
        let file = File {
            id: (self.files.len() + 1) as i64,
            cd_id: descriptor.id,
            storage_id,
            hash: descriptor.hash,
            file_type,
            mime_type,
            status: FileStatus::Imported,
            name: None,
            comment: None,
            creation_time,
            change_time,
            import_time,
        };
        let copy = file.clone();
        proof {
            lemma_file_views_push(self.files@, file);
        }
        self.files.push(file);
        Ok(copy)
    }

    /// Adds a file from bytes: the content is stored once under its
    /// hash in the main storage location, and the file type follows
    /// from the media type where that parses.
    ///
    /// Fails as [`Repo::insert_file`] does.
    pub fn add_file(
        &mut self,
        mime_type: Option<String>,
        content: Vec<u8>,
        creation_time: i64,
        change_time: i64,
        import_time: i64,
    ) -> (result: RepoResult<File>)
        requires
            old(self)@.wf(),
        ensures
            final(self)@.wf(),
            match result {
                Ok(file) => {
                    &&& old(self)@.can_insert_file(content_hash(content@))
                    &&& final(self)@ == old(self)@.insert_file(
                        old(self)@.main_storage->0.id,
                        content_hash(content@),
                        content@,
                        classified(supplied_media(optional_text(mime_type))).0,
                        classified(supplied_media(optional_text(mime_type))).1,
                        creation_time as int,
                        change_time as int,
                        import_time as int,
                    )
                    &&& file@ == final(self)@.files.last()
                },
                Err(e) => {
                    &&& !old(self)@.can_insert_file(content_hash(content@))
                    &&& e == old(self)@.insert_file_error(content_hash(content@))
                    &&& final(self)@ == old(self)@
                },
            },
    {
        let media = match &mime_type {
            Some(text) => parse_mime(text.as_str()),
            None => None,
        };
        let (mime_type, file_type) = classify(media);
        let hash = hash_content(&content);
        self.insert_file(
            hash,
            content,
            mime_type,
            file_type,
            creation_time,
            change_time,
            import_time,
        )
    }

    /// Adds a file whose bytes were read from `path`: the media type is
    /// the one that the extension of the path suggests, and `now` is
    /// its creation, change and import time.
    ///
    /// Fails as [`Repo::insert_file`] does.
    pub fn add_file_by_path(&mut self, path: &str, content: Vec<u8>, now: i64) -> (result:
        RepoResult<File>)
        requires
            old(self)@.wf(),
        ensures
            final(self)@.wf(),
            match result {
                Ok(file) => {
                    &&& old(self)@.can_insert_file(content_hash(content@))
                    &&& final(self)@ == old(self)@.insert_file(
                        old(self)@.main_storage->0.id,
                        content_hash(content@),
                        content@,
                        classified(media_of_path(path@)).0,
                        classified(media_of_path(path@)).1,
                        now as int,
                        now as int,
                        now as int,
                    )
                    &&& file@ == final(self)@.files.last()
                },
                Err(e) => {
                    &&& !old(self)@.can_insert_file(content_hash(content@))
                    &&& e == old(self)@.insert_file_error(content_hash(content@))
                    &&& final(self)@ == old(self)@
                },
            },
    {
        let media = media_type_of_path(path);
        let (mime_type, file_type) = classify(media);
        let hash = hash_content(&content);
        self.insert_file(hash, content, mime_type, file_type, now, now, now)
    }

    /// The file with the given id, if there is one.
    pub fn file_by_id(&self, id: i64) -> (found: Option<File>)
        requires
            self@.wf(),
        ensures
            match found {
                Some(file) => self@.has_file(id as int) && file@ == self@.files[id - 1],
                None => !self@.has_file(id as int),
            },
    {
        if 1 <= id && id <= MAX_ROWS as i64 && (id as usize) <= self.files.len() {
            Some(self.files[(id - 1) as usize].clone())
        } else {
            None
        }
    }

    /// The first file, in table order, whose content hash is `hash`.
    pub fn file_by_hash(&self, hash: &str) -> (found: Option<File>)
        ensures
            match found {
                Some(file) => first_file_with_hash(self@.files, file@, hash@),
                None => no_file_with_hash(self@.files, hash@),
            },
    {
        let wanted = hash.to_owned();
        let mut i: usize = 0;
        while i < self.files.len()
            invariant
                i <= self.files.len(),
                wanted@ == hash@,
                forall|j: int| 0 <= j < i ==> (#[trigger] self@.files[j]).hash != hash@,
            decreases self.files.len() - i,
        {
            if self.files[i].hash == wanted {
                assert(self@.files[i as int] == self.files@[i as int]@);
                return Some(self.files[i].clone());
            }
            i += 1;
        }
        None
    }

    /// All files, in table order.
    pub fn files(&self) -> (rows: Vec<File>)
        ensures
            file_views(rows@) == self@.files,
    {
        let mut rows: Vec<File> = Vec::new();
        let mut i: usize = 0;
        while i < self.files.len()
            invariant
                i <= self.files.len(),
                file_views(rows@) == file_views(self.files@).take(i as int),
            decreases self.files.len() - i,
        {
            proof {
                lemma_file_views_push(rows@, self.files@[i as int]);
            }
            rows.push(self.files[i].clone());
            i += 1;
            assert(file_views(rows@) =~= file_views(self.files@).take(i as int));
        }
        assert(file_views(self.files@).take(i as int) =~= file_views(self.files@));
        rows
    }

    /// The content of the file `id`.
    ///
    /// Fails with `NotFound` where the file is unknown and with
    /// `IntegrityError` where its bytes are missing from the byte store.
    pub fn read_file(&self, id: i64) -> (result: RepoResult<Vec<u8>>)
        requires
            self@.wf(),
        ensures
            match result {
                Ok(bytes) => {
                    &&& self@.has_file(id as int)
                    &&& self@.store.has_object(
                        self@.files[id - 1].storage_id,
                        self@.files[id - 1].hash,
                    )
                    &&& bytes@ == self@.store.bytes_of(
                        self@.files[id - 1].storage_id,
                        self@.files[id - 1].hash,
                    )
                },
                Err(e) => if self@.has_file(id as int) {
                    &&& e == RepoError::IntegrityError
                    &&& !self@.store.has_object(
                        self@.files[id - 1].storage_id,
                        self@.files[id - 1].hash,
                    )
                } else {
                    e == RepoError::NotFound
                },
            },
    {
        if !(1 <= id && id <= MAX_ROWS as i64 && (id as usize) <= self.files.len()) {
            return Err(RepoError::NotFound);
        }
        let file = &self.files[(id - 1) as usize];
        proof {
            let row = self@.files[id - 1];
            assert(refers_to(self@.store, row.cd_id, row.storage_id, row.hash));
            assert(self@.store.descriptors[row.cd_id - 1].storage_id == row.storage_id);
        }
        self.store.read_entry(file.storage_id, file.hash.as_str())
    }

    /// The content of the first file, in table order, whose content
    /// hash is `hash`.
    ///
    /// Fails with `NotFound` where no file has that hash and with
    /// `IntegrityError` where its bytes are missing from the byte store.
    pub fn read_file_by_hash(&self, hash: &str) -> (result: RepoResult<Vec<u8>>)
        requires
            self@.wf(),
        ensures
            match result {
                Ok(bytes) => self@.file_bytes(hash@) == Ok::<Seq<u8>, RepoError>(bytes@),
                Err(e) => self@.file_bytes(hash@) == Err::<Seq<u8>, RepoError>(e),
            },
    {
        let file = match self.file_by_hash(hash) {
            Some(file) => file,
            None => {
                return Err(RepoError::NotFound);
            },
        };
        proof {
            lemma_file_with_hash(self@.files, file@, hash@);
            let k = choose|k: int| 0 <= k < self@.files.len() && #[trigger] self@.files[k] == file@;
            assert(self@.files[k].id == k + 1);
        }
        self.read_file(file.id)
    }

    /// Drops the bytes of the file `id` from the byte store, as when
    /// the physical file is lost; the rows stay. Returns whether bytes
    /// were there.
    pub fn discard_file_bytes(&mut self, id: i64) -> (dropped: bool)
        requires
            old(self)@.wf(),
        ensures
            final(self)@.wf(),
            if old(self)@.has_file(id as int) {
                &&& dropped == old(self)@.store.has_object(
                    old(self)@.files[id - 1].storage_id,
                    old(self)@.files[id - 1].hash,
                )
                &&& final(self)@ == (RepoView {
                    store: old(self)@.store.discard(
                        old(self)@.files[id - 1].storage_id,
                        old(self)@.files[id - 1].hash,
                    ),
                    ..old(self)@
                })
            } else {
                !dropped && final(self)@ == old(self)@
            },
    {
        if !(1 <= id && id <= MAX_ROWS as i64 && (id as usize) <= self.files.len()) {
            return false;
        }
        let storage_id = self.files[(id - 1) as usize].storage_id;
        let hash = self.files[(id - 1) as usize].hash.clone();
        let dropped = self.store.discard_bytes(storage_id, hash.as_str());
        proof {
            lemma_discard(old(self)@.store, storage_id as int, hash@);
            lemma_extends_keeps(old(self)@.store, self@.store, old(self)@);
        }
        dropped
    }

    /// Sets the display name of the file `id`. Fails with `NotFound`
    /// where the file is unknown.
    pub fn update_file_name(&mut self, id: i64, name: String) -> (result: RepoResult<File>)
        requires
            old(self)@.wf(),
        ensures
            final(self)@.wf(),
            match result {
                Ok(file) => {
                    &&& old(self)@.has_file(id as int)
                    &&& final(self)@ == (RepoView {
                        files: old(self)@.files.update(
                            id - 1,
                            FileView { name: Some(name@), ..old(self)@.files[id - 1] },
                        ),
                        ..old(self)@
                    })
                    &&& file@ == final(self)@.files[id - 1]
                },
                Err(e) => {
                    &&& !old(self)@.has_file(id as int)
                    &&& e == RepoError::NotFound
                    &&& final(self)@ == old(self)@
                },
            },
    {
        if !(1 <= id && id <= MAX_ROWS as i64 && (id as usize) <= self.files.len()) {
            return Err(RepoError::NotFound);
        }
        let at = (id - 1) as usize;
        let mut file = self.files[at].clone();
        file.name = Some(name);
        let copy = file.clone();
        proof {
            let after = self.files@.update(at as int, file);
            assert(file_views(after) =~= file_views(self.files@).update(at as int, file@));
            lemma_same_hashes(self@, file_views(after));
        }
        self.files.set(at, file);
        Ok(copy)
    }

    /// Sets the lifecycle state of the file `id`; its content, tags and
    /// thumbnails stay as they are. Fails with `NotFound` where the file
    /// is unknown.
    pub fn update_file_status(&mut self, id: i64, status: FileStatus) -> (result: RepoResult<File>)
        requires
            old(self)@.wf(),
        ensures
            final(self)@.wf(),
            match result {
                Ok(file) => {
                    &&& old(self)@.has_file(id as int)
                    &&& final(self)@ == (RepoView {
                        files: old(self)@.files.update(
                            id - 1,
                            FileView { status, ..old(self)@.files[id - 1] },
                        ),
                        ..old(self)@
                    })
                    &&& file@ == final(self)@.files[id - 1]
                },
                Err(e) => {
                    &&& !old(self)@.has_file(id as int)
                    &&& e == RepoError::NotFound
                    &&& final(self)@ == old(self)@
                },
            },
    {
        if !(1 <= id && id <= MAX_ROWS as i64 && (id as usize) <= self.files.len()) {
            return Err(RepoError::NotFound);
        }
        let at = (id - 1) as usize;
        let mut file = self.files[at].clone();
        file.status = status;
        let copy = file.clone();
        proof {
            let after = self.files@.update(at as int, file);
            assert(file_views(after) =~= file_views(self.files@).update(at as int, file@));
            lemma_same_hashes(self@, file_views(after));
        }
        self.files.set(at, file);
        Ok(copy)
    }
}

/// A file table whose rows keep their ids, descriptors, locations and
/// hashes keeps the repository well formed.
pub proof fn lemma_same_hashes(r: RepoView, files: Seq<FileView>)
    requires
        r.wf(),
        files.len() == r.files.len(),
        forall|i: int|
            0 <= i < files.len() ==> (#[trigger] files[i]).id == r.files[i].id && files[i].cd_id
                == r.files[i].cd_id && files[i].storage_id == r.files[i].storage_id
                && files[i].hash == r.files[i].hash,
    ensures
        (RepoView { files, ..r }).wf(),
{
    let t = RepoView { files, ..r };
    assert forall|i: int| 0 <= i < t.files.len() implies refers_to(
        t.store,
        (#[trigger] t.files[i]).cd_id,
        t.files[i].storage_id,
        t.files[i].hash,
    ) && t.files[i].id == i + 1 by {
        assert(refers_to(r.store, r.files[i].cd_id, r.files[i].storage_id, r.files[i].hash));
        assert(r.files[i].id == i + 1);
    }
    assert forall|i: int| 0 <= i < t.thumbnails.len() implies 1 <= (
    #[trigger] t.thumbnails[i]).file_id <= t.files.len() && t.thumbnails[i].file_hash
        == t.files[t.thumbnails[i].file_id - 1].hash by {
        let k = r.thumbnails[i].file_id - 1;
        assert(files[k].hash == r.files[k].hash);
    }
}

/// What a supplied media type comes to: nothing where none is supplied
/// or it does not parse.
pub open spec fn supplied_media(mime_type: Option<Seq<char>>) -> Option<(Seq<char>, Seq<char>)> {
    match mime_type {
        Some(text) => parsed_mime(text),
        None => None,
    }
}

} // verus!
