//! The thumbnail manager: renderings of files, reused where a stored
//! rendering is close enough to the requested size.

use vstd::prelude::*;
use crate::catalog::MAX_ROWS;
use crate::digest::{content_hash, hash_content};
use crate::error::{RepoError, RepoResult};
use crate::file::{
    lemma_thumbnail_views_push, satisfies, size_satisfies, thumbnail_views, Thumbnail,
    ThumbnailSize, ThumbnailView,
};
use crate::render::{render_png, rendered};
use crate::repo::{lemma_extends_keeps, lemma_store_extends, refers_to, Repo, RepoView};
use crate::seqs::{lemma_filter_empty, lemma_filter_step};
use crate::storage::{copy_bytes, lemma_store};

verus! {

broadcast use crate::repo::lemma_repo_view;

/// The media type of stored thumbnails.
pub open spec fn png_type() -> Seq<char> {
    "image/png"@
}

impl RepoView {
    /// The repository after a rendering of the file `file_id` has been
    /// stored in the location `storage_id` and recorded with its size.
    pub open spec fn insert_thumbnail(
        self,
        file_id: int,
        storage_id: int,
        hash: Seq<char>,
        bytes: Seq<u8>,
        height: int,
        width: int,
    ) -> RepoView {
        let store = self.store.store(storage_id, hash, bytes);
        RepoView {
            store,
            thumbnails: self.thumbnails.push(
                ThumbnailView {
                    id: self.thumbnails.len() as int + 1,
                    file_id,
                    file_hash: self.files[file_id - 1].hash,
                    cd_id: store.descriptor_for(storage_id, hash).id,
                    storage_id,
                    hash,
                    height,
                    width,
                    mime_type: Some(png_type()),
                },
            ),
            ..self
        }
    }

    /// The repository after a rendering of the file `file_id` with the
    /// given hash and size has been recorded, or the error that
    /// recording it fails with: `StorageUnavailable` without a
    /// thumbnail storage, `NotFound` for an unknown file,
    /// `CapacityExceeded` where a table is full.
    pub open spec fn record_thumbnail(
        self,
        file_id: int,
        hash: Seq<char>,
        bytes: Seq<u8>,
        height: int,
        width: int,
    ) -> Result<RepoView, RepoError> {
        if self.thumbnail_storage is None {
            Err(RepoError::StorageUnavailable)
        } else if !self.has_file(file_id) {
            Err(RepoError::NotFound)
        } else if self.thumbnails.len() >= MAX_ROWS || !self.store.can_store(
            self.thumbnail_storage->0.id,
            hash,
        ) {
            Err(RepoError::CapacityExceeded)
        } else {
            Ok(
                self.insert_thumbnail(
                    file_id,
                    self.thumbnail_storage->0.id,
                    hash,
                    bytes,
                    height,
                    width,
                ),
            )
        }
    }

    /// The repository after the file `file_id` has been rendered at the
    /// tier `size` and the rendering recorded, or the error that this
    /// fails with. The thumbnail storage is checked before anything is
    /// rendered; missing source bytes give `IntegrityError`, bytes that
    /// cannot be rendered `RenderFailed`.
    pub open spec fn create_thumbnail(self, file_id: int, size: ThumbnailSize) -> Result<
        RepoView,
        RepoError,
    > {
        if self.thumbnail_storage is None {
            Err(RepoError::StorageUnavailable)
        } else if !self.has_file(file_id) {
            Err(RepoError::NotFound)
        } else if !self.store.has_object(
            self.files[file_id - 1].storage_id,
            self.files[file_id - 1].hash,
        ) {
            Err(RepoError::IntegrityError)
        } else {
            match self.rendering(file_id, size) {
                None => Err(RepoError::RenderFailed),
                Some((png, height, width)) => self.record_thumbnail(
                    file_id,
                    content_hash(png),
                    png,
                    height as int,
                    width as int,
                ),
            }
        }
    }

    /// What rendering the stored bytes of the file `file_id` at the tier
    /// `size` comes to.
    pub open spec fn rendering(self, file_id: int, size: ThumbnailSize) -> Option<
        (Seq<u8>, u32, u32),
    > {
        rendered(
            self.store.bytes_of(self.files[file_id - 1].storage_id, self.files[file_id - 1].hash),
            size.spec_dimensions().0,
            size.spec_dimensions().1,
        )
    }

    /// The bytes of the first thumbnail whose content hash is `hash`, or
    /// the error that reading them fails with: `NotFound` where no
    /// thumbnail has that hash, `IntegrityError` where its bytes are
    /// missing.
    pub open spec fn thumbnail_bytes(self, hash: Seq<char>) -> Result<Seq<u8>, RepoError> {
        if no_thumbnail_with_hash(self.thumbnails, hash) {
            Err(RepoError::NotFound)
        } else {
            let row = thumbnail_with_hash(self.thumbnails, hash);
            if self.store.has_object(row.storage_id, row.hash) {
                Ok(self.store.bytes_of(row.storage_id, row.hash))
            } else {
                Err(RepoError::IntegrityError)
            }
        }
    }

    /// The thumbnails of the file `file_id`, in table order.
    pub open spec fn thumbnails_of(self, file_id: int) -> Seq<ThumbnailView> {
        self.thumbnails.filter(|t: ThumbnailView| t.file_id == file_id)
    }

    /// The thumbnails of the file `file_id` whose size satisfies a
    /// request for the given height and width, in table order.
    pub open spec fn acceptable(self, file_id: int, height: int, width: int) -> Seq<ThumbnailView> {
        self.thumbnails.filter(
            |t: ThumbnailView| t.file_id == file_id && satisfies(t.height, t.width, height, width),
        )
    }

    /// The thumbnail that a request for the given size is answered with,
    /// and its bytes, where the request succeeds: the first stored
    /// thumbnail that satisfies the request with the bytes stored for
    /// it, or else the thumbnail newly recorded with the bytes just
    /// rendered.
    pub open spec fn thumbnail_answer(self, file_id: int, height: int, width: int) -> (
        ThumbnailView,
        Seq<u8>,
    ) {
        if self.acceptable(file_id, height, width).len() > 0 {
            let found = self.acceptable(file_id, height, width)[0];
            (found, self.store.bytes_of(found.storage_id, found.hash))
        } else {
            let png = match self.rendering(file_id, ThumbnailSize::Medium) {
                Some(out) => out.0,
                None => Seq::empty(),
            };
            (self.create_thumbnail(file_id, ThumbnailSize::Medium)->Ok_0.thumbnails.last(), png)
        }
    }

    /// The repository after a thumbnail of the file `file_id` has been
    /// obtained for the requested size, or the error that this fails
    /// with. Where a stored thumbnail satisfies the request nothing
    /// changes; otherwise the file is rendered once, at the medium
    /// tier.
    pub open spec fn get_or_create_thumbnail(self, file_id: int, height: int, width: int) -> Result<
        RepoView,
        RepoError,
    > {
        if self.thumbnail_storage is None {
            Err(RepoError::StorageUnavailable)
        } else if !self.has_file(file_id) {
            Err(RepoError::NotFound)
        } else if self.acceptable(file_id, height, width).len() > 0 {
            let found = self.acceptable(file_id, height, width)[0];
            if self.store.has_object(found.storage_id, found.hash) {
                Ok(self)
            } else {
                Err(RepoError::IntegrityError)
            }
        } else {
            self.create_thumbnail(file_id, ThumbnailSize::Medium)
        }
    }
}

/// Whether `row` is the first of `rows`, in order, whose content hash is
/// `hash`.
pub open spec fn first_thumbnail_with_hash(
    rows: Seq<ThumbnailView>,
    row: ThumbnailView,
    hash: Seq<char>,
) -> bool {
    exists|i: int|
        0 <= i < rows.len() && #[trigger] rows[i] == row && row.hash == hash && forall|j: int|
            0 <= j < i ==> (#[trigger] rows[j]).hash != hash
}

/// Whether none of `rows` has the content hash `hash`.
pub open spec fn no_thumbnail_with_hash(rows: Seq<ThumbnailView>, hash: Seq<char>) -> bool {
    forall|j: int| 0 <= j < rows.len() ==> (#[trigger] rows[j]).hash != hash
}

/// The first thumbnail among `rows`, in order, whose content hash is
/// `hash`, where there is one.
pub open spec fn thumbnail_with_hash(rows: Seq<ThumbnailView>, hash: Seq<char>) -> ThumbnailView {
    choose|row: ThumbnailView| first_thumbnail_with_hash(rows, row, hash)
}

/// The first thumbnail with a hash is unique.
pub proof fn lemma_thumbnail_with_hash(rows: Seq<ThumbnailView>, row: ThumbnailView, hash: Seq<char>)
    requires
        first_thumbnail_with_hash(rows, row, hash),
    ensures
        thumbnail_with_hash(rows, hash) == row,
        !no_thumbnail_with_hash(rows, hash),
{
    let other = thumbnail_with_hash(rows, hash);
    let i = choose|i: int|
        0 <= i < rows.len() && #[trigger] rows[i] == row && row.hash == hash && forall|j: int|
            0 <= j < i ==> (#[trigger] rows[j]).hash != hash;
    let k = choose|k: int|
        0 <= k < rows.len() && #[trigger] rows[k] == other && other.hash == hash && forall|j: int|
            0 <= j < k ==> (#[trigger] rows[j]).hash != hash;
    assert(rows[i].hash == hash);
    assert(rows[k].hash == hash);
    assert(i == k);
}

/// Recording a thumbnail keeps the repository well formed.
pub proof fn lemma_insert_thumbnail(
    r: RepoView,
    file_id: int,
    storage_id: int,
    hash: Seq<char>,
    bytes: Seq<u8>,
    height: int,
    width: int,
)
    requires
        r.wf(),
        r.has_file(file_id),
        r.thumbnails.len() < MAX_ROWS,
        r.store.can_store(storage_id, hash),
    ensures
        r.insert_thumbnail(file_id, storage_id, hash, bytes, height, width).wf(),
{
    let store = r.store.store(storage_id, hash, bytes);
    lemma_store(r.store, storage_id, hash, bytes);
    lemma_store_extends(r.store, storage_id, hash, bytes);
    lemma_extends_keeps(r.store, store, r);
    let t = r.insert_thumbnail(file_id, storage_id, hash, bytes, height, width);
    let mid = RepoView { store, ..r };
    let d = store.descriptor_for(storage_id, hash);
    let k = choose|k: int|
        0 <= k < store.descriptors.len() && (#[trigger] store.descriptors[k]).storage_id
            == storage_id && store.descriptors[k].hash == hash;
    assert(d == store.descriptors[k]);
    assert(d.id == k + 1);
    assert forall|i: int| 0 <= i < t.thumbnails.len() implies refers_to(
        store,
        (#[trigger] t.thumbnails[i]).cd_id,
        t.thumbnails[i].storage_id,
        t.thumbnails[i].hash,
    ) && t.thumbnails[i].id == i + 1 && 1 <= t.thumbnails[i].file_id <= t.files.len() by {
        if i < r.thumbnails.len() {
            assert(t.thumbnails[i] == mid.thumbnails[i]);
        }
    }
}

/// Thumbnail tolerance: where a stored thumbnail of the file satisfies
/// the request, obtaining a thumbnail changes nothing, so nothing is
/// rendered; where none does and the call succeeds, exactly one
/// thumbnail row is added.
pub proof fn lemma_thumbnail_reuse(r: RepoView, file_id: int, height: int, width: int)
    requires
        r.wf(),
    ensures
        r.acceptable(file_id, height, width).len() > 0 ==> (r.get_or_create_thumbnail(
            file_id,
            height,
            width,
        ) matches Ok(after) ==> after == r),
        r.acceptable(file_id, height, width).len() == 0 ==> (r.get_or_create_thumbnail(
            file_id,
            height,
            width,
        ) matches Ok(after) ==> after.thumbnails.len() == r.thumbnails.len() + 1
            && after.thumbnails.take(r.thumbnails.len() as int) == r.thumbnails),
{
    if r.acceptable(file_id, height, width).len() == 0 {
        if let Ok(after) = r.get_or_create_thumbnail(file_id, height, width) {
            assert(after.thumbnails.take(r.thumbnails.len() as int) =~= r.thumbnails);
        }
    }
}

impl Repo {
    /// The first thumbnail, in table order, whose content hash is
    /// `hash`.
    pub fn thumbnail_by_hash(&self, hash: &str) -> (found: Option<Thumbnail>)
        ensures
            match found {
                Some(row) => first_thumbnail_with_hash(self@.thumbnails, row@, hash@),
                None => no_thumbnail_with_hash(self@.thumbnails, hash@),
            },
    {
        let wanted = hash.to_owned();
        let mut i: usize = 0;
        while i < self.thumbnails.len()
            invariant
                i <= self.thumbnails.len(),
                wanted@ == hash@,
                forall|j: int| 0 <= j < i ==> (#[trigger] self@.thumbnails[j]).hash != hash@,
            decreases self.thumbnails.len() - i,
        {
            if self.thumbnails[i].hash == wanted {
                assert(self@.thumbnails[i as int] == self.thumbnails@[i as int]@);
                return Some(self.thumbnails[i].clone());
            }
            i += 1;
        }
        None
    }

    /// The thumbnails of the file `file_id`, in table order.
    pub fn thumbnails_of_file(&self, file_id: i64) -> (found: Vec<Thumbnail>)
        ensures
            thumbnail_views(found@) == self@.thumbnails_of(file_id as int),
    {
        let ghost pred = |t: ThumbnailView| t.file_id == file_id as int;
        let mut found: Vec<Thumbnail> = Vec::new();
        let mut i: usize = 0;
        proof {
            lemma_filter_empty(self@.thumbnails.take(0), pred);
        }
        while i < self.thumbnails.len()
            invariant
                i <= self.thumbnails.len(),
                pred == |t: ThumbnailView| t.file_id == file_id as int,
                thumbnail_views(found@) == self@.thumbnails.take(i as int).filter(pred),
            decreases self.thumbnails.len() - i,
        {
            proof {
                lemma_filter_step(self@.thumbnails, pred, i as int);
                lemma_thumbnail_views_push(found@, self.thumbnails@[i as int]);
                assert(self@.thumbnails[i as int] == self.thumbnails@[i as int]@);
            }
            if self.thumbnails[i].file_id == file_id {
                found.push(self.thumbnails[i].clone());
            }
            i += 1;
        }
        assert(self@.thumbnails.take(i as int) =~= self@.thumbnails);
        found
    }

    /// The first thumbnail of the file `file_id`, in table order, whose
    /// size satisfies a request for the given height and width: each
    /// stored dimension lies between four fifths and six fifths of the
    /// requested one, both rounded down and both included.
    pub fn find_thumbnail(&self, file_id: i64, height: u32, width: u32) -> (found: Option<Thumbnail>)
        ensures
            match found {
                Some(row) => self@.acceptable(file_id as int, height as int, width as int).len() > 0
                    && row@ == self@.acceptable(file_id as int, height as int, width as int)[0],
                None => self@.acceptable(file_id as int, height as int, width as int).len() == 0,
            },
    {
        let ghost pred = |t: ThumbnailView|
            t.file_id == file_id as int && satisfies(t.height, t.width, height as int, width as int);
        let mut i: usize = 0;
        proof {
            lemma_filter_empty(self@.thumbnails.take(0), pred);
        }
        while i < self.thumbnails.len()
            invariant
                i <= self.thumbnails.len(),
                pred == |t: ThumbnailView|
                    t.file_id == file_id as int && satisfies(
                        t.height,
                        t.width,
                        height as int,
                        width as int,
                    ),
                self@.thumbnails.take(i as int).filter(pred).len() == 0,
            decreases self.thumbnails.len() - i,
        {
            let row = &self.thumbnails[i];
            proof {
                lemma_filter_step(self@.thumbnails, pred, i as int);
                assert(self@.thumbnails[i as int] == self.thumbnails@[i as int]@);
            }
            if row.file_id == file_id && size_satisfies(row.height, row.width, height, width) {
                proof {
                    let all = self@.thumbnails;
                    assert(all =~= all.take(i + 1) + all.skip(i + 1));
                    Seq::filter_distributes_over_add(all.take(i + 1), all.skip(i + 1), pred);
                    assert(all.take(i + 1).filter(pred)[0] == all[i as int]);
                }
                return Some(row.clone());
            }
            i += 1;
        }
        assert(self@.thumbnails.take(i as int) =~= self@.thumbnails);
        None
    }

    /// The bytes of the first thumbnail, in table order, whose content
    /// hash is `hash`.
    ///
    /// Fails with `NotFound` where no thumbnail has that hash and with
    /// `IntegrityError` where its bytes are missing from the byte store.
    pub fn read_thumbnail(&self, hash: &str) -> (result: RepoResult<Vec<u8>>)
        requires
            self@.wf(),
        ensures
            match result {
                Ok(bytes) => self@.thumbnail_bytes(hash@) == Ok::<Seq<u8>, RepoError>(bytes@),
                Err(e) => self@.thumbnail_bytes(hash@) == Err::<Seq<u8>, RepoError>(e),
            },
    {
        let row = match self.thumbnail_by_hash(hash) {
            Some(row) => row,
            None => {
                return Err(RepoError::NotFound);
            },
        };
        proof {
            lemma_thumbnail_with_hash(self@.thumbnails, row@, hash@);
            let k = choose|k: int|
                0 <= k < self@.thumbnails.len() && #[trigger] self@.thumbnails[k] == row@;
            assert(refers_to(
                self@.store,
                self@.thumbnails[k].cd_id,
                self@.thumbnails[k].storage_id,
                self@.thumbnails[k].hash,
            ));
            assert(self@.store.descriptors[row@.cd_id - 1].storage_id == row@.storage_id);
        }
        self.store.read_entry(row.storage_id, row.hash.as_str())
    }

    /// Records a rendering of the file `file_id` whose hash is already
    /// known: the bytes are stored once in the thumbnail storage
    /// location and a thumbnail row with the given size is added.
    pub fn insert_thumbnail(
        &mut self,
        file_id: i64,
        height: u32,
        width: u32,
        hash: String,
        png: Vec<u8>,
    ) -> (result: RepoResult<Thumbnail>)
        requires
            old(self)@.wf(),
        ensures
            final(self)@.wf(),
            match result {
                Ok(row) => {
                    &&& old(self)@.record_thumbnail(
                        file_id as int,
                        hash@,
                        png@,
                        height as int,
                        width as int,
                    ) == Ok::<RepoView, RepoError>(final(self)@)
                    &&& row@ == final(self)@.thumbnails.last()
                },
                Err(e) => {
                    &&& old(self)@.record_thumbnail(
                        file_id as int,
                        hash@,
                        png@,
                        height as int,
                        width as int,
                    ) == Err::<RepoView, RepoError>(e)
                    &&& final(self)@ == old(self)@
                },
            },
    {
        let storage_id = match &self.thumbnail_storage {
            Some(row) => row.id,
            None => {
                return Err(RepoError::StorageUnavailable);
            },
        };
        if !(1 <= file_id && file_id <= MAX_ROWS as i64 && (file_id as usize) <= self.files.len()) {
            return Err(RepoError::NotFound);
        }
        if self.thumbnails.len() >= MAX_ROWS {
            return Err(RepoError::CapacityExceeded);
        }
        let ghost before = self@;
        let descriptor = match self.store.store_hashed(storage_id, hash, png) {
            Ok(row) => row,
            Err(e) => {
                return Err(RepoError::CapacityExceeded);
            },
        };
        proof {
            lemma_insert_thumbnail(
                before,
                file_id as int,
                storage_id as int,
                hash@,
                png@,
                height as int,
                width as int,
            );
        }
        let row = Thumbnail {
            id: (self.thumbnails.len() + 1) as i64,
            file_id,
            file_hash: self.files[(file_id - 1) as usize].hash.clone(),
            cd_id: descriptor.id,
            storage_id,
            hash: descriptor.hash,
            height,
            width,
            mime_type: Some("image/png".to_owned()),
        };
        let copy = row.clone();
        proof {
            lemma_thumbnail_views_push(self.thumbnails@, row);
        }
        self.thumbnails.push(row);
        Ok(copy)
    }

    /// Records a rendering of the file `file_id`: the bytes are stored
    /// once under their content hash in the thumbnail storage location
    /// and a thumbnail row with the given size is added.
    pub fn store_single_thumbnail(&mut self, file_id: i64, height: u32, width: u32, png: Vec<u8>) -> (result:
        RepoResult<Thumbnail>)
        requires
            old(self)@.wf(),
        ensures
            final(self)@.wf(),
            match result {
                Ok(row) => {
                    &&& old(self)@.record_thumbnail(
                        file_id as int,
                        content_hash(png@),
                        png@,
                        height as int,
                        width as int,
                    ) == Ok::<RepoView, RepoError>(final(self)@)
                    &&& row@ == final(self)@.thumbnails.last()
                },
                Err(e) => {
                    &&& old(self)@.record_thumbnail(
                        file_id as int,
                        content_hash(png@),
                        png@,
                        height as int,
                        width as int,
                    ) == Err::<RepoView, RepoError>(e)
                    &&& final(self)@ == old(self)@
                },
            },
    {
        let hash = hash_content(&png);
        self.insert_thumbnail(file_id, height, width, hash, png)
    }

    /// Renders the file `file_id` at the tier `size` and records the
    /// rendering with the size it came out at.
    ///
    /// The thumbnail storage is checked before anything is rendered.
    /// Fails with `StorageUnavailable` without a thumbnail storage,
    /// `NotFound` for an unknown file, `IntegrityError` where the
    /// file's bytes are missing, `RenderFailed` where they cannot be
    /// rendered and `CapacityExceeded` where a table is full; nothing
    /// is changed then.
    pub fn create_file_thumbnail(&mut self, file_id: i64, size: ThumbnailSize) -> (result:
        RepoResult<Thumbnail>)
        requires
            old(self)@.wf(),
        ensures
            final(self)@.wf(),
            match result {
                Ok(row) => {
                    &&& old(self)@.create_thumbnail(file_id as int, size) == Ok::<
                        RepoView,
                        RepoError,
                    >(final(self)@)
                    &&& row@ == final(self)@.thumbnails.last()
                },
                Err(e) => {
                    &&& old(self)@.create_thumbnail(file_id as int, size) == Err::<
                        RepoView,
                        RepoError,
                    >(e)
                    &&& final(self)@ == old(self)@
                },
            },
    {
        match self.render_file(file_id, size) {
            Ok((png, height, width)) => self.store_single_thumbnail(file_id, height, width, png),
            Err(e) => Err(e),
        }
    }

    fn render_file(&self, file_id: i64, size: ThumbnailSize) -> (result: RepoResult<
        (Vec<u8>, u32, u32),
    >)
        requires
            self@.wf(),
        ensures
            match result {
                Ok(out) => {
                    &&& self@.thumbnail_storage is Some
                    &&& self@.has_file(file_id as int)
                    &&& self@.store.has_object(
                        self@.files[file_id - 1].storage_id,
                        self@.files[file_id - 1].hash,
                    )
                    &&& self@.rendering(file_id as int, size) == Some((out.0@, out.1, out.2))
                },
                Err(e) => {
                    &&& self@.create_thumbnail(file_id as int, size) == Err::<RepoView, RepoError>(e)
                    &&& e != RepoError::CapacityExceeded
                },
            },
    {
        if self.thumbnail_storage.is_none() {
            return Err(RepoError::StorageUnavailable);
        }
        let source = match self.read_file(file_id) {
            Ok(bytes) => bytes,
            Err(e) => {
                return Err(e);
            },
        };
        let (height, width) = size.dimensions();
        match render_png(&source, height, width) {
            Some(out) => Ok(out),
            None => Err(RepoError::RenderFailed),
        }
    }

    /// Renders the file `file_id` at the medium tier and records the
    /// rendering. Fails as [`Repo::create_file_thumbnail`] does.
    pub fn create_thumbnails_for_file(&mut self, file_id: i64) -> (result: RepoResult<()>)
        requires
            old(self)@.wf(),
        ensures
            final(self)@.wf(),
            match result {
                Ok(_) => old(self)@.create_thumbnail(file_id as int, ThumbnailSize::Medium) == Ok::<
                    RepoView,
                    RepoError,
                >(final(self)@),
                Err(e) => {
                    &&& old(self)@.create_thumbnail(file_id as int, ThumbnailSize::Medium) == Err::<
                        RepoView,
                        RepoError,
                    >(e)
                    &&& final(self)@ == old(self)@
                },
            },
    {
        match self.create_file_thumbnail(file_id, ThumbnailSize::Medium) {
            Ok(_) => Ok(()),
            Err(e) => Err(e),
        }
    }

    /// A thumbnail of the file `file_id` for the requested height and
    /// width, with its bytes.
    ///
    /// Where a stored thumbnail of the file satisfies the request, the
    /// first such thumbnail is returned and nothing is rendered or
    /// changed. Otherwise the file is rendered once at the medium tier
    /// and the new thumbnail is returned with the rendered bytes.
    ///
    /// Fails with `StorageUnavailable` without a thumbnail storage,
    /// before anything else is looked at; with `NotFound` for an
    /// unknown file; with `IntegrityError` where the bytes of the
    /// thumbnail found, or of the file to render, are missing; and as
    /// [`Repo::create_file_thumbnail`] does.
    pub fn get_or_create_thumbnail(&mut self, file_id: i64, height: u32, width: u32) -> (result:
        RepoResult<(Thumbnail, Vec<u8>)>)
        requires
            old(self)@.wf(),
        ensures
            final(self)@.wf(),
            match result {
                Ok((row, bytes)) => {
                    &&& old(self)@.get_or_create_thumbnail(
                        file_id as int,
                        height as int,
                        width as int,
                    ) == Ok::<RepoView, RepoError>(final(self)@)
                    &&& (row@, bytes@) == old(self)@.thumbnail_answer(
                        file_id as int,
                        height as int,
                        width as int,
                    )
                },
                Err(e) => {
                    &&& old(self)@.get_or_create_thumbnail(
                        file_id as int,
                        height as int,
                        width as int,
                    ) == Err::<RepoView, RepoError>(e)
                    &&& final(self)@ == old(self)@
                },
            },
    {
        if self.thumbnail_storage.is_none() {
            return Err(RepoError::StorageUnavailable);
        }
        if !(1 <= file_id && file_id <= MAX_ROWS as i64 && (file_id as usize) <= self.files.len()) {
            return Err(RepoError::NotFound);
        }
        if let Some(row) = self.find_thumbnail(file_id, height, width) {
            proof {
                crate::seqs::lemma_filter_members(
                    self@.thumbnails,
                    |t: ThumbnailView|
                        t.file_id == file_id as int && satisfies(
                            t.height,
                            t.width,
                            height as int,
                            width as int,
                        ),
                );
                let found = self@.acceptable(file_id as int, height as int, width as int)[0];
                assert(self@.thumbnails.contains(found));
                let k = choose|k: int| 0 <= k < self@.thumbnails.len() && self@.thumbnails[k] == found;
                assert(refers_to(
                    self@.store,
                    self@.thumbnails[k].cd_id,
                    self@.thumbnails[k].storage_id,
                    self@.thumbnails[k].hash,
                ));
                assert(self@.store.descriptors[found.cd_id - 1].storage_id == found.storage_id);
            }
            return match self.store.read_entry(row.storage_id, row.hash.as_str()) {
                Ok(bytes) => Ok((row, bytes)),
                Err(e) => Err(e),
            };
        }
        let (png, rendered_height, rendered_width) = match self.render_file(
            file_id,
            ThumbnailSize::Medium,
        ) {
            Ok(out) => out,
            Err(e) => {
                return Err(e);
            },
        };
        let copy = copy_bytes(&png);
        match self.store_single_thumbnail(file_id, rendered_height, rendered_width, png) {
            Ok(row) => Ok((row, copy)),
            Err(e) => Err(e),
        }
    }
}

} // verus!
