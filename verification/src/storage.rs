//! The storage engine: named storage locations and a content-addressed
//! byte store that keeps one descriptor and one copy per content hash
//! and location.

use vstd::prelude::*;
use crate::catalog::MAX_ROWS;
use crate::seqs::lemma_filter_step;
use crate::digest::{content_hash, hash_content};
use crate::text::string_of;
use crate::error::{RepoError, RepoResult};

verus! {

/// A storage location: a named root under which content lives.
#[derive(Debug)]
pub struct Storage {
    pub id: i64,
    pub name: String,
    pub path: String,
}

/// What a storage location row holds.
pub struct StorageView {
    pub id: int,
    pub name: Seq<char>,
    pub path: Seq<char>,
}

impl View for Storage {
    type V = StorageView;

    open spec fn view(&self) -> StorageView {
        StorageView { id: self.id as int, name: self.name@, path: self.path@ }
    }
}

impl Clone for Storage {
    fn clone(&self) -> (copy: Self)
        ensures
            copy == *self,
    {
        Storage { id: self.id, name: self.name.clone(), path: self.path.clone() }
    }
}

/// A content descriptor: identifies byte content by its hash within one
/// storage location.
#[derive(Debug)]
pub struct ContentDescriptor {
    pub id: i64,
    pub storage_id: i64,
    pub hash: String,
}

/// What a content descriptor row holds.
pub struct DescriptorView {
    pub id: int,
    pub storage_id: int,
    pub hash: Seq<char>,
}

impl View for ContentDescriptor {
    type V = DescriptorView;

    open spec fn view(&self) -> DescriptorView {
        DescriptorView { id: self.id as int, storage_id: self.storage_id as int, hash: self.hash@ }
    }
}

impl Clone for ContentDescriptor {
    fn clone(&self) -> (copy: Self)
        ensures
            copy == *self,
    {
        ContentDescriptor { id: self.id, storage_id: self.storage_id, hash: self.hash.clone() }
    }
}

/// A physical copy of content in the byte store.
struct StoredObject {
    storage_id: i64,
    hash: String,
    bytes: Vec<u8>,
}

/// What a stored object holds.
pub struct ObjectView {
    pub storage_id: int,
    pub hash: Seq<char>,
    pub bytes: Seq<u8>,
}

impl View for StoredObject {
    type V = ObjectView;

    closed spec fn view(&self) -> ObjectView {
        ObjectView { storage_id: self.storage_id as int, hash: self.hash@, bytes: self.bytes@ }
    }
}

/// Whether `row` is the first of `rows`, in order, whose root path is
/// `path`.
pub open spec fn first_with_path(rows: Seq<StorageView>, row: StorageView, path: Seq<char>) -> bool {
    exists|i: int|
        0 <= i < rows.len() && #[trigger] rows[i] == row && row.path == path && forall|j: int|
            0 <= j < i ==> (#[trigger] rows[j]).path != path
}

/// Whether none of `rows` has the root path `path`.
pub open spec fn none_with_path(rows: Seq<StorageView>, path: Seq<char>) -> bool {
    forall|j: int| 0 <= j < rows.len() ==> (#[trigger] rows[j]).path != path
}

/// The views of a list of storage rows.
pub open spec fn storage_views(rows: Seq<Storage>) -> Seq<StorageView> {
    rows.map_values(|s: Storage| s@)
}

/// The views of a list of descriptor rows.
pub open spec fn descriptor_views(rows: Seq<ContentDescriptor>) -> Seq<DescriptorView> {
    rows.map_values(|d: ContentDescriptor| d@)
}

/// The mathematical content of the storage engine: the location table,
/// the descriptor table and the byte store.
pub struct StoreView {
    pub storages: Seq<StorageView>,
    pub descriptors: Seq<DescriptorView>,
    pub objects: Seq<ObjectView>,
}

impl StoreView {
    /// The invariant of the storage engine: ids are positions counted
    /// from one, location names are unique, a hash has at most one
    /// descriptor and at most one copy per location, every descriptor
    /// belongs to a known location and every copy to a descriptor.
    pub open spec fn wf(self) -> bool {
        &&& self.storages.len() <= MAX_ROWS
        &&& self.descriptors.len() <= MAX_ROWS
        &&& forall|i: int| 0 <= i < self.storages.len() ==> (#[trigger] self.storages[i]).id == i + 1
        &&& forall|i: int, j: int|
            0 <= i < j < self.storages.len() ==> (#[trigger] self.storages[i]).name != (
            #[trigger] self.storages[j]).name
        &&& forall|i: int|
            0 <= i < self.descriptors.len() ==> (#[trigger] self.descriptors[i]).id == i + 1
        &&& forall|i: int|
            0 <= i < self.descriptors.len() ==> 1 <= (#[trigger] self.descriptors[i]).storage_id
                <= self.storages.len()
        &&& forall|i: int, j: int|
            0 <= i < j < self.descriptors.len() ==> !((#[trigger] self.descriptors[i]).storage_id
                == (#[trigger] self.descriptors[j]).storage_id && self.descriptors[i].hash
                == self.descriptors[j].hash)
        &&& forall|i: int, j: int|
            0 <= i < j < self.objects.len() ==> !((#[trigger] self.objects[i]).storage_id == (
            #[trigger] self.objects[j]).storage_id && self.objects[i].hash == self.objects[j].hash)
        &&& forall|i: int|
            0 <= i < self.objects.len() ==> self.has_descriptor(
                (#[trigger] self.objects[i]).storage_id,
                self.objects[i].hash,
            )
    }

    /// Whether a location called `name` exists.
    pub open spec fn has_storage_named(self, name: Seq<char>) -> bool {
        exists|i: int| 0 <= i < self.storages.len() && (#[trigger] self.storages[i]).name == name
    }

    /// The location called `name`, where one exists.
    pub open spec fn storage_named(self, name: Seq<char>) -> StorageView {
        self.storages[choose|i: int|
            0 <= i < self.storages.len() && (#[trigger] self.storages[i]).name == name]
    }

    /// Whether the location `storage_id` has a descriptor for `hash`.
    pub open spec fn has_descriptor(self, storage_id: int, hash: Seq<char>) -> bool {
        exists|i: int|
            0 <= i < self.descriptors.len() && (#[trigger] self.descriptors[i]).storage_id
                == storage_id && self.descriptors[i].hash == hash
    }

    /// The descriptor for `hash` in the location `storage_id`, where one
    /// exists.
    pub open spec fn descriptor_for(self, storage_id: int, hash: Seq<char>) -> DescriptorView {
        self.descriptors[choose|i: int|
            0 <= i < self.descriptors.len() && (#[trigger] self.descriptors[i]).storage_id
                == storage_id && self.descriptors[i].hash == hash]
    }

    /// Whether the byte store holds a copy for `hash` in the location
    /// `storage_id`.
    pub open spec fn has_object(self, storage_id: int, hash: Seq<char>) -> bool {
        exists|i: int|
            0 <= i < self.objects.len() && (#[trigger] self.objects[i]).storage_id == storage_id
                && self.objects[i].hash == hash
    }

    /// The bytes stored for `hash` in the location `storage_id`, where a
    /// copy exists.
    pub open spec fn bytes_of(self, storage_id: int, hash: Seq<char>) -> Seq<u8> {
        self.objects[choose|i: int|
            0 <= i < self.objects.len() && (#[trigger] self.objects[i]).storage_id == storage_id
                && self.objects[i].hash == hash].bytes
    }

    /// Whether the byte store holds exactly `bytes` for `hash` in the
    /// location `storage_id`.
    pub open spec fn holds(self, storage_id: int, hash: Seq<char>, bytes: Seq<u8>) -> bool {
        self.has_object(storage_id, hash) && self.bytes_of(storage_id, hash) == bytes
    }

    /// The number of physical copies held for `hash` in the location
    /// `storage_id`.
    pub open spec fn copies(self, storage_id: int, hash: Seq<char>) -> nat {
        self.objects.filter(|o: ObjectView| o.storage_id == storage_id && o.hash == hash).len()
    }

    /// The number of descriptor rows for `hash` in the location
    /// `storage_id`.
    pub open spec fn descriptor_count(self, storage_id: int, hash: Seq<char>) -> nat {
        self.descriptors.filter(
            |d: DescriptorView| d.storage_id == storage_id && d.hash == hash,
        ).len()
    }

    /// The engine after a location has been added with the next free id.
    pub open spec fn add_storage(self, name: Seq<char>, path: Seq<char>) -> StoreView {
        StoreView {
            storages: self.storages.push(
                StorageView { id: self.storages.len() as int + 1, name, path },
            ),
            ..self
        }
    }

    /// The engine after content with the given hash has been stored in
    /// the location `storage_id`: unchanged where a descriptor exists;
    /// otherwise with a new descriptor and a copy of the bytes.
    pub open spec fn store(self, storage_id: int, hash: Seq<char>, bytes: Seq<u8>) -> StoreView {
        if self.has_descriptor(storage_id, hash) {
            self
        } else {
            StoreView {
                storages: self.storages,
                descriptors: self.descriptors.push(
                    DescriptorView { id: self.descriptors.len() as int + 1, storage_id, hash },
                ),
                objects: self.objects.push(ObjectView { storage_id, hash, bytes }),
            }
        }
    }

    /// The position of the copy for `hash` in the location `storage_id`,
    /// where one exists.
    pub open spec fn object_position(self, storage_id: int, hash: Seq<char>) -> int {
        choose|i: int|
            0 <= i < self.objects.len() && (#[trigger] self.objects[i]).storage_id == storage_id
                && self.objects[i].hash == hash
    }

    /// The engine after the copy for `hash` in the location `storage_id`
    /// has gone missing from the byte store; the descriptor stays.
    pub open spec fn discard(self, storage_id: int, hash: Seq<char>) -> StoreView {
        if self.has_object(storage_id, hash) {
            StoreView {
                objects: self.objects.remove(self.object_position(storage_id, hash)),
                ..self
            }
        } else {
            self
        }
    }

    /// Whether `store` can run: the location exists and the descriptor
    /// table has room for a new row unless the descriptor exists.
    pub open spec fn can_store(self, storage_id: int, hash: Seq<char>) -> bool {
        &&& 1 <= storage_id <= self.storages.len()
        &&& (self.has_descriptor(storage_id, hash) || self.descriptors.len() < MAX_ROWS)
    }
}

/// In a well-formed engine a location and hash find their own descriptor.
pub proof fn lemma_descriptor_for(s: StoreView, i: int)
    requires
        s.wf(),
        0 <= i < s.descriptors.len(),
    ensures
        s.has_descriptor(s.descriptors[i].storage_id, s.descriptors[i].hash),
        s.descriptor_for(s.descriptors[i].storage_id, s.descriptors[i].hash) == s.descriptors[i],
{
    let storage_id = s.descriptors[i].storage_id;
    let hash = s.descriptors[i].hash;
    let j = choose|j: int|
        0 <= j < s.descriptors.len() && (#[trigger] s.descriptors[j]).storage_id == storage_id
            && s.descriptors[j].hash == hash;
    assert(j == i);
}

/// In a well-formed engine a location and hash find their own copy.
pub proof fn lemma_bytes_of(s: StoreView, i: int)
    requires
        s.wf(),
        0 <= i < s.objects.len(),
    ensures
        s.has_object(s.objects[i].storage_id, s.objects[i].hash),
        s.bytes_of(s.objects[i].storage_id, s.objects[i].hash) == s.objects[i].bytes,
{
    let storage_id = s.objects[i].storage_id;
    let hash = s.objects[i].hash;
    let j = choose|j: int|
        0 <= j < s.objects.len() && (#[trigger] s.objects[j]).storage_id == storage_id
            && s.objects[j].hash == hash;
    assert(j == i);
}

/// Storing content keeps the engine well formed; afterwards the
/// descriptor exists, and the copy exists unless the descriptor was
/// there before without one.
pub proof fn lemma_store(s: StoreView, storage_id: int, hash: Seq<char>, bytes: Seq<u8>)
    requires
        s.wf(),
        s.can_store(storage_id, hash),
    ensures
        s.store(storage_id, hash, bytes).wf(),
        s.store(storage_id, hash, bytes).has_descriptor(storage_id, hash),
        s.has_descriptor(storage_id, hash) ==> s.store(storage_id, hash, bytes) == s,
        !s.has_descriptor(storage_id, hash) ==> {
            &&& s.store(storage_id, hash, bytes).has_object(storage_id, hash)
            &&& s.store(storage_id, hash, bytes).bytes_of(storage_id, hash) == bytes
            &&& s.store(storage_id, hash, bytes).descriptor_for(storage_id, hash)
                == (DescriptorView { id: s.descriptors.len() as int + 1, storage_id, hash })
        },
{
    let t = s.store(storage_id, hash, bytes);
    if !s.has_descriptor(storage_id, hash) {
        let n = s.descriptors.len() as int;
        let m = s.objects.len() as int;
        assert(t.descriptors[n].storage_id == storage_id && t.descriptors[n].hash == hash);
        assert(t.objects[m].storage_id == storage_id && t.objects[m].hash == hash);
        assert forall|i: int, j: int| 0 <= i < j < t.objects.len() implies !((
        #[trigger] t.objects[i]).storage_id == (#[trigger] t.objects[j]).storage_id
            && t.objects[i].hash == t.objects[j].hash) by {
            if j == m {
                assert(t.objects[i] == s.objects[i]);
                assert(s.has_descriptor(s.objects[i].storage_id, s.objects[i].hash));
            } else {
                assert(t.objects[i] == s.objects[i]);
                assert(t.objects[j] == s.objects[j]);
            }
        }
        assert forall|i: int| 0 <= i < t.objects.len() implies t.has_descriptor(
            (#[trigger] t.objects[i]).storage_id,
            t.objects[i].hash,
        ) by {
            if i < m {
                assert(t.objects[i] == s.objects[i]);
                assert(s.has_descriptor(s.objects[i].storage_id, s.objects[i].hash));
                let k = choose|k: int|
                    0 <= k < s.descriptors.len() && (#[trigger] s.descriptors[k]).storage_id
                        == s.objects[i].storage_id && s.descriptors[k].hash == s.objects[i].hash;
                assert(t.descriptors[k] == s.descriptors[k]);
            }
        }
        assert forall|i: int, j: int| 0 <= i < j < t.descriptors.len() implies !((
        #[trigger] t.descriptors[i]).storage_id == (#[trigger] t.descriptors[j]).storage_id
            && t.descriptors[i].hash == t.descriptors[j].hash) by {
            assert(t.descriptors[i] == s.descriptors[i]);
            if j < n {
                assert(t.descriptors[j] == s.descriptors[j]);
            }
        }
        assert forall|i: int| 0 <= i < t.descriptors.len() implies 1 <= (
        #[trigger] t.descriptors[i]).storage_id <= t.storages.len() by {
            if i < n {
                assert(t.descriptors[i] == s.descriptors[i]);
            }
        }
        assert forall|i: int| 0 <= i < t.descriptors.len() implies (#[trigger] t.descriptors[i]).id
            == i + 1 by {
            if i < n {
                assert(t.descriptors[i] == s.descriptors[i]);
            }
        }
        lemma_descriptor_for(t, n);
        lemma_bytes_of(t, m);
    }
}

proof fn lemma_copies_prefix(s: StoreView, storage_id: int, hash: Seq<char>, n: int)
    requires
        s.wf(),
        0 <= n <= s.objects.len(),
    ensures
        s.objects.take(n).filter(|o: ObjectView| o.storage_id == storage_id && o.hash == hash).len()
            == if exists|i: int|
            0 <= i < n && (#[trigger] s.objects[i]).storage_id == storage_id && s.objects[i].hash
                == hash {
            1nat
        } else {
            0nat
        },
    decreases n,
{
    let pred = |o: ObjectView| o.storage_id == storage_id && o.hash == hash;
    if n == 0 {
        reveal(Seq::filter);
        assert(s.objects.take(0).filter(pred) =~= Seq::<ObjectView>::empty());
    } else {
        lemma_copies_prefix(s, storage_id, hash, n - 1);
        lemma_filter_step(s.objects, pred, n - 1);
    }
}

proof fn lemma_descriptor_count_prefix(s: StoreView, storage_id: int, hash: Seq<char>, n: int)
    requires
        s.wf(),
        0 <= n <= s.descriptors.len(),
    ensures
        s.descriptors.take(n).filter(
            |d: DescriptorView| d.storage_id == storage_id && d.hash == hash,
        ).len() == if exists|i: int|
            0 <= i < n && (#[trigger] s.descriptors[i]).storage_id == storage_id
                && s.descriptors[i].hash == hash {
            1nat
        } else {
            0nat
        },
    decreases n,
{
    let pred = |d: DescriptorView| d.storage_id == storage_id && d.hash == hash;
    if n == 0 {
        reveal(Seq::filter);
        assert(s.descriptors.take(0).filter(pred) =~= Seq::<DescriptorView>::empty());
    } else {
        lemma_descriptor_count_prefix(s, storage_id, hash, n - 1);
        lemma_filter_step(s.descriptors, pred, n - 1);
    }
}

/// In a well-formed engine a hash has one descriptor or none, and one
/// copy or none, per location.
pub proof fn lemma_one_copy(s: StoreView, storage_id: int, hash: Seq<char>)
    requires
        s.wf(),
    ensures
        s.copies(storage_id, hash) == if s.has_object(storage_id, hash) {
            1nat
        } else {
            0nat
        },
        s.descriptor_count(storage_id, hash) == if s.has_descriptor(storage_id, hash) {
            1nat
        } else {
            0nat
        },
{
    lemma_copies_prefix(s, storage_id, hash, s.objects.len() as int);
    assert(s.objects.take(s.objects.len() as int) =~= s.objects);
    lemma_descriptor_count_prefix(s, storage_id, hash, s.descriptors.len() as int);
    assert(s.descriptors.take(s.descriptors.len() as int) =~= s.descriptors);
}

/// Deduplication: storing the same content a second time in the same
/// location changes nothing, so both calls yield the same descriptor;
/// there is one descriptor row for it, and one physical copy unless the
/// copy of an existing descriptor had gone missing beforehand.
pub proof fn lemma_store_twice(s: StoreView, storage_id: int, hash: Seq<char>, bytes: Seq<u8>)
    requires
        s.wf(),
        s.can_store(storage_id, hash),
    ensures
        s.store(storage_id, hash, bytes).wf(),
        s.store(storage_id, hash, bytes).can_store(storage_id, hash),
        s.store(storage_id, hash, bytes).store(storage_id, hash, bytes) == s.store(
            storage_id,
            hash,
            bytes,
        ),
        s.store(storage_id, hash, bytes).descriptor_count(storage_id, hash) == 1,
        s.has_descriptor(storage_id, hash) ==> s.has_object(storage_id, hash) ==> s.store(
            storage_id,
            hash,
            bytes,
        ).copies(storage_id, hash) == 1,
        !s.has_descriptor(storage_id, hash) ==> s.store(storage_id, hash, bytes).copies(
            storage_id,
            hash,
        ) == 1,
{
    lemma_store(s, storage_id, hash, bytes);
    lemma_one_copy(s.store(storage_id, hash, bytes), storage_id, hash);
}


/// Losing a copy keeps the engine well formed and leaves no copy for
/// that hash and location.
pub proof fn lemma_discard(s: StoreView, storage_id: int, hash: Seq<char>)
    requires
        s.wf(),
    ensures
        s.discard(storage_id, hash).wf(),
        !s.discard(storage_id, hash).has_object(storage_id, hash),
        s.discard(storage_id, hash).descriptors == s.descriptors,
        forall|other: int, h: Seq<char>|
            !(other == storage_id && h == hash) ==> (#[trigger] s.discard(
                storage_id,
                hash,
            ).has_object(other, h) == s.has_object(other, h)),
{
    let t = s.discard(storage_id, hash);
    if s.has_object(storage_id, hash) {
        let at = s.object_position(storage_id, hash);
        assert forall|i: int| 0 <= i < t.objects.len() implies #[trigger] t.objects[i]
            == s.objects[if i < at {
            i
        } else {
            i + 1
        }] by {}
        assert forall|i: int, j: int| 0 <= i < j < t.objects.len() implies !((
        #[trigger] t.objects[i]).storage_id == (#[trigger] t.objects[j]).storage_id
            && t.objects[i].hash == t.objects[j].hash) by {
            let a = if i < at { i } else { i + 1 };
            let b = if j < at { j } else { j + 1 };
            assert(t.objects[i] == s.objects[a]);
            assert(t.objects[j] == s.objects[b]);
        }
        assert forall|i: int| 0 <= i < t.objects.len() implies t.has_descriptor(
            (#[trigger] t.objects[i]).storage_id,
            t.objects[i].hash,
        ) by {
            let a = if i < at { i } else { i + 1 };
            assert(t.objects[i] == s.objects[a]);
            assert(s.has_descriptor(s.objects[a].storage_id, s.objects[a].hash));
            let k = choose|k: int|
                0 <= k < s.descriptors.len() && (#[trigger] s.descriptors[k]).storage_id
                    == s.objects[a].storage_id && s.descriptors[k].hash == s.objects[a].hash;
            assert(t.descriptors[k] == s.descriptors[k]);
        }
        if t.has_object(storage_id, hash) {
            let i = choose|i: int|
                0 <= i < t.objects.len() && (#[trigger] t.objects[i]).storage_id == storage_id
                    && t.objects[i].hash == hash;
            let a = if i < at { i } else { i + 1 };
            assert(t.objects[i] == s.objects[a]);
            assert(s.objects[at].storage_id == storage_id);
            assert(false);
        }
        assert forall|other: int, h: Seq<char>| !(other == storage_id && h == hash) implies (
        #[trigger] t.has_object(other, h) == s.has_object(other, h)) by {
            if t.has_object(other, h) {
                let i = choose|i: int|
                    0 <= i < t.objects.len() && (#[trigger] t.objects[i]).storage_id == other
                        && t.objects[i].hash == h;
                let a = if i < at { i } else { i + 1 };
                assert(t.objects[i] == s.objects[a]);
                assert(s.objects[a].storage_id == other);
            }
            if s.has_object(other, h) {
                let a = choose|a: int|
                    0 <= a < s.objects.len() && (#[trigger] s.objects[a]).storage_id == other
                        && s.objects[a].hash == h;
                assert(a != at);
                let i = if a < at { a } else { a - 1 };
                assert(t.objects[i] == s.objects[a]);
                assert(t.objects[i].storage_id == other);
            }
        }
    }
}

/// The path under which the copy for `hash` lives below the root
/// `root`: a folder named by the first two characters of the hash, then
/// the hash itself.
pub open spec fn path_of(root: Seq<char>, hash: Seq<char>) -> Seq<char> {
    root + seq!['/'] + hash.take(if hash.len() < 2 { hash.len() as int } else { 2 }) + seq!['/']
        + hash
}

/// The path under which the copy for `hash` lives in `storage`.
pub fn object_path(storage: &Storage, hash: &str) -> (path: String)
    ensures
        path@ == path_of(storage.path@, hash@),
{
    let root = crate::text::chars_of(storage.path.as_str());
    let name = crate::text::chars_of(hash);
    let mut out: Vec<char> = root;
    out.push('/');
    let folder: usize = if name.len() < 2 { name.len() } else { 2 };
    let mut i: usize = 0;
    while i < folder
        invariant
            i <= folder <= name.len(),
            out@ == storage.path@ + seq!['/'] + name@.take(i as int),
        decreases folder - i,
    {
        out.push(name[i]);
        i += 1;
        assert(out@ =~= storage.path@ + seq!['/'] + name@.take(i as int));
    }
    out.push('/');
    let mut j: usize = 0;
    while j < name.len()
        invariant
            j <= name.len(),
            folder <= name.len(),
            out@ == storage.path@ + seq!['/'] + name@.take(folder as int) + seq!['/'] + name@.take(
                j as int,
            ),
        decreases name.len() - j,
    {
        out.push(name[j]);
        j += 1;
        assert(out@ =~= storage.path@ + seq!['/'] + name@.take(folder as int) + seq!['/']
            + name@.take(j as int));
    }
    assert(name@.take(j as int) =~= name@);
    string_of(&out)
}

/// The storage engine: the location table, the descriptor table and the
/// byte store.
pub struct ContentStore {
    storages: Vec<Storage>,
    descriptors: Vec<ContentDescriptor>,
    objects: Vec<StoredObject>,
}

/// The views of a list of stored objects.
spec fn object_views(rows: Seq<StoredObject>) -> Seq<ObjectView> {
    rows.map_values(|o: StoredObject| o@)
}

impl View for ContentStore {
    type V = StoreView;

    closed spec fn view(&self) -> StoreView {
        StoreView {
            storages: storage_views(self.storages@),
            descriptors: descriptor_views(self.descriptors@),
            objects: object_views(self.objects@),
        }
    }
}

/// A copy of `bytes`.
pub fn copy_bytes(bytes: &Vec<u8>) -> (copy: Vec<u8>)
    ensures
        copy@ == bytes@,
{
    let mut copy: Vec<u8> = Vec::new();
    let mut i: usize = 0;
    while i < bytes.len()
        invariant
            i <= bytes.len(),
            copy@ == bytes@.take(i as int),
        decreases bytes.len() - i,
    {
        copy.push(bytes[i]);
        i += 1;
        assert(copy@ =~= bytes@.take(i as int));
    }
    assert(bytes@.take(i as int) =~= bytes@);
    copy
}

impl ContentStore {
    /// An engine without locations or content.
    pub fn new() -> (store: Self)
        ensures
            store@.wf(),
            store@.storages.len() == 0,
            store@.descriptors.len() == 0,
            store@.objects.len() == 0,
    {
        ContentStore { storages: Vec::new(), descriptors: Vec::new(), objects: Vec::new() }
    }

    /// All storage locations, in table order.
    pub fn storages(&self) -> (rows: Vec<Storage>)
        ensures
            storage_views(rows@) == self@.storages,
    {
        let mut rows: Vec<Storage> = Vec::new();
        let mut i: usize = 0;
        while i < self.storages.len()
            invariant
                i <= self.storages.len(),
                storage_views(rows@) == storage_views(self.storages@).take(i as int),
            decreases self.storages.len() - i,
        {
            assert(storage_views(rows@.push(self.storages@[i as int])) =~= storage_views(
                rows@,
            ).push(self.storages@[i as int]@));
            rows.push(self.storages[i].clone());
            i += 1;
            assert(storage_views(rows@) =~= storage_views(self.storages@).take(i as int));
        }
        assert(storage_views(self.storages@).take(i as int) =~= storage_views(self.storages@));
        rows
    }

    /// The location called `name`, if there is one.
    pub fn storage_by_name(&self, name: &str) -> (found: Option<Storage>)
        requires
            self@.wf(),
        ensures
            match found {
                Some(row) => self@.has_storage_named(name@) && row@ == self@.storage_named(name@),
                None => !self@.has_storage_named(name@),
            },
    {
        let wanted = name.to_owned();
        let mut i: usize = 0;
        while i < self.storages.len()
            invariant
                i <= self.storages.len(),
                wanted@ == name@,
                self@.wf(),
                forall|j: int| 0 <= j < i ==> (#[trigger] self@.storages[j]).name != name@,
            decreases self.storages.len() - i,
        {
            if self.storages[i].name == wanted {
                proof {
                    assert(self@.storages[i as int].name == name@);
                    let k = choose|k: int|
                        0 <= k < self@.storages.len() && (#[trigger] self@.storages[k]).name
                            == name@;
                    assert(k == i);
                }
                return Some(self.storages[i].clone());
            }
            i += 1;
        }
        None
    }

    /// The first location, in table order, whose root path is `path`.
    pub fn storage_by_path(&self, path: &str) -> (found: Option<Storage>)
        ensures
            match found {
                Some(row) => first_with_path(self@.storages, row@, path@),
                None => none_with_path(self@.storages, path@),
            },
    {
        let wanted = path.to_owned();
        let mut i: usize = 0;
        while i < self.storages.len()
            invariant
                i <= self.storages.len(),
                wanted@ == path@,
                forall|j: int| 0 <= j < i ==> (#[trigger] self@.storages[j]).path != path@,
            decreases self.storages.len() - i,
        {
            if self.storages[i].path == wanted {
                assert(self@.storages[i as int] == self.storages@[i as int]@);
                return Some(self.storages[i].clone());
            }
            i += 1;
        }
        None
    }

    /// The location with the given id, if there is one.
    pub fn storage_by_id(&self, id: i64) -> (found: Option<Storage>)
        requires
            self@.wf(),
        ensures
            match found {
                Some(row) => 1 <= id <= self@.storages.len() && row@ == self@.storages[id - 1],
                None => !(1 <= id <= self@.storages.len()),
            },
    {
        if 1 <= id && id <= MAX_ROWS as i64 && (id as usize) <= self.storages.len() {
            Some(self.storages[(id - 1) as usize].clone())
        } else {
            None
        }
    }

    /// Adds a storage location. Fails with `Conflict` where the name is
    /// taken, else with `CapacityExceeded` where the table is full.
    pub fn add_storage(&mut self, name: &str, path: &str) -> (result: RepoResult<Storage>)
        requires
            old(self)@.wf(),
        ensures
            final(self)@.wf(),
            match result {
                Ok(row) => {
                    &&& !old(self)@.has_storage_named(name@)
                    &&& old(self)@.storages.len() < MAX_ROWS
                    &&& final(self)@ == old(self)@.add_storage(name@, path@)
                    &&& row@ == final(self)@.storages.last()
                },
                Err(e) => {
                    &&& final(self)@ == old(self)@
                    &&& e == if old(self)@.has_storage_named(name@) {
                        RepoError::Conflict
                    } else {
                        RepoError::CapacityExceeded
                    }
                    &&& old(self)@.has_storage_named(name@) || old(self)@.storages.len() >= MAX_ROWS
                },
            },
    {
        if self.storage_by_name(name).is_some() {
            return Err(RepoError::Conflict);
        }
        if self.storages.len() >= MAX_ROWS {
            return Err(RepoError::CapacityExceeded);
        }
        let row = Storage {
            id: (self.storages.len() + 1) as i64,
            name: name.to_owned(),
            path: path.to_owned(),
        };
        let copy = row.clone();
        proof {
            assert(storage_views(self.storages@.push(row)) =~= storage_views(self.storages@).push(
                row@,
            ));
            let t = self@.add_storage(name@, path@);
            assert forall|i: int, j: int| 0 <= i < j < t.storages.len() implies (
            #[trigger] t.storages[i]).name != (#[trigger] t.storages[j]).name by {
                assert(t.storages[i] == self@.storages[i]);
                if j < self@.storages.len() {
                    assert(t.storages[j] == self@.storages[j]);
                }
            }
        }
        self.storages.push(row);
        Ok(copy)
    }

    fn descriptor_position(&self, storage_id: i64, hash: &String) -> (at: Option<usize>)
        ensures
            match at {
                Some(i) => i < self@.descriptors.len() && self@.descriptors[i as int].storage_id
                    == storage_id && self@.descriptors[i as int].hash == hash@,
                None => !self@.has_descriptor(storage_id as int, hash@),
            },
    {
        let mut i: usize = 0;
        while i < self.descriptors.len()
            invariant
                i <= self.descriptors.len(),
                forall|j: int|
                    0 <= j < i ==> !((#[trigger] self@.descriptors[j]).storage_id == storage_id
                        && self@.descriptors[j].hash == hash@),
            decreases self.descriptors.len() - i,
        {
            if self.descriptors[i].storage_id == storage_id && self.descriptors[i].hash == *hash {
                return Some(i);
            }
            i += 1;
        }
        None
    }

    fn object_index(&self, storage_id: i64, hash: &String) -> (at: Option<usize>)
        ensures
            match at {
                Some(i) => i < self@.objects.len() && self@.objects[i as int].storage_id
                    == storage_id && self@.objects[i as int].hash == hash@,
                None => !self@.has_object(storage_id as int, hash@),
            },
    {
        let mut i: usize = 0;
        while i < self.objects.len()
            invariant
                i <= self.objects.len(),
                forall|j: int|
                    0 <= j < i ==> !((#[trigger] self@.objects[j]).storage_id == storage_id
                        && self@.objects[j].hash == hash@),
            decreases self.objects.len() - i,
        {
            if self.objects[i].storage_id == storage_id && self.objects[i].hash == *hash {
                return Some(i);
            }
            i += 1;
        }
        None
    }

    /// The descriptor with the given id, if there is one.
    pub fn descriptor_by_id(&self, id: i64) -> (found: Option<ContentDescriptor>)
        requires
            self@.wf(),
        ensures
            match found {
                Some(row) => 1 <= id <= self@.descriptors.len() && row@ == self@.descriptors[id
                    - 1],
                None => !(1 <= id <= self@.descriptors.len()),
            },
    {
        if 1 <= id && id <= MAX_ROWS as i64 && (id as usize) <= self.descriptors.len() {
            Some(self.descriptors[(id - 1) as usize].clone())
        } else {
            None
        }
    }

    /// The descriptor for `hash` in the location `storage_id`, if there
    /// is one.
    pub fn descriptor_by_hash(&self, storage_id: i64, hash: &str) -> (found: Option<
        ContentDescriptor,
    >)
        requires
            self@.wf(),
        ensures
            match found {
                Some(row) => self@.has_descriptor(storage_id as int, hash@) && row@
                    == self@.descriptor_for(storage_id as int, hash@),
                None => !self@.has_descriptor(storage_id as int, hash@),
            },
    {
        let wanted = hash.to_owned();
        match self.descriptor_position(storage_id, &wanted) {
            Some(i) => {
                proof {
                    lemma_descriptor_for(self@, i as int);
                }
                Some(self.descriptors[i].clone())
            },
            None => None,
        }
    }

    /// Stores content whose hash is already known in the location
    /// `storage_id` and returns its descriptor.
    ///
    /// Where the location already has a descriptor for the hash, that
    /// descriptor is returned and nothing is written. Fails with
    /// `NotFound` where the location is unknown, else with
    /// `CapacityExceeded` where a new descriptor is needed and the table
    /// is full.
    pub fn store_hashed(&mut self, storage_id: i64, hash: String, bytes: Vec<u8>) -> (result:
        RepoResult<ContentDescriptor>)
        requires
            old(self)@.wf(),
        ensures
            final(self)@.wf(),
            match result {
                Ok(row) => {
                    &&& old(self)@.can_store(storage_id as int, hash@)
                    &&& final(self)@ == old(self)@.store(storage_id as int, hash@, bytes@)
                    &&& final(self)@.has_descriptor(storage_id as int, hash@)
                    &&& row@ == final(self)@.descriptor_for(storage_id as int, hash@)
                    &&& !old(self)@.has_descriptor(storage_id as int, hash@)
                        ==> final(self)@.holds(storage_id as int, hash@, bytes@)
                },
                Err(e) => {
                    &&& !old(self)@.can_store(storage_id as int, hash@)
                    &&& final(self)@ == old(self)@
                    &&& e == if 1 <= storage_id <= old(self)@.storages.len() {
                        RepoError::CapacityExceeded
                    } else {
                        RepoError::NotFound
                    }
                },
            },
    {
        if !(1 <= storage_id && storage_id <= MAX_ROWS as i64 && (storage_id as usize)
            <= self.storages.len()) {
            return Err(RepoError::NotFound);
        }
        if let Some(i) = self.descriptor_position(storage_id, &hash) {
            proof {
                lemma_descriptor_for(self@, i as int);
            }
            return Ok(self.descriptors[i].clone());
        }
        if self.descriptors.len() >= MAX_ROWS {
            return Err(RepoError::CapacityExceeded);
        }
        let row = ContentDescriptor {
            id: (self.descriptors.len() + 1) as i64,
            storage_id,
            hash: hash.clone(),
        };
        let copy = row.clone();
        let object = StoredObject { storage_id, hash, bytes };
        proof {
            lemma_store(self@, storage_id as int, hash@, bytes@);
            assert(descriptor_views(self.descriptors@.push(row)) =~= descriptor_views(
                self.descriptors@,
            ).push(row@));
            assert(object_views(self.objects@.push(object)) =~= object_views(self.objects@).push(
                object@,
            ));
        }
        self.descriptors.push(row);
        self.objects.push(object);
        Ok(copy)
    }

    /// Stores `bytes` in the location `storage_id` under their content
    /// hash and returns the descriptor; identical content is stored
    /// once. Fails as [`ContentStore::store_hashed`] does.
    pub fn store_entry(&mut self, storage_id: i64, bytes: Vec<u8>) -> (result: RepoResult<
        ContentDescriptor,
    >)
        requires
            old(self)@.wf(),
        ensures
            final(self)@.wf(),
            match result {
                Ok(row) => {
                    &&& old(self)@.can_store(storage_id as int, content_hash(bytes@))
                    &&& final(self)@ == old(self)@.store(
                        storage_id as int,
                        content_hash(bytes@),
                        bytes@,
                    )
                    &&& final(self)@.has_descriptor(storage_id as int, content_hash(bytes@))
                    &&& row@ == final(self)@.descriptor_for(storage_id as int, content_hash(bytes@))
                    &&& !old(self)@.has_descriptor(storage_id as int, content_hash(bytes@))
                        ==> final(self)@.holds(storage_id as int, content_hash(bytes@), bytes@)
                },
                Err(e) => {
                    &&& !old(self)@.can_store(storage_id as int, content_hash(bytes@))
                    &&& final(self)@ == old(self)@
                    &&& e == if 1 <= storage_id <= old(self)@.storages.len() {
                        RepoError::CapacityExceeded
                    } else {
                        RepoError::NotFound
                    }
                },
            },
    {
        let hash = hash_content(&bytes);
        self.store_hashed(storage_id, hash, bytes)
    }

    /// Reads the bytes that a descriptor stands for.
    ///
    /// Fails with `NotFound` where the location has no descriptor for
    /// the hash, and with `IntegrityError` where the descriptor exists
    /// but the byte store holds no copy.
    pub fn read_entry(&self, storage_id: i64, hash: &str) -> (result: RepoResult<Vec<u8>>)
        requires
            self@.wf(),
        ensures
            match result {
                Ok(bytes) => {
                    &&& self@.has_descriptor(storage_id as int, hash@)
                    &&& self@.has_object(storage_id as int, hash@)
                    &&& bytes@ == self@.bytes_of(storage_id as int, hash@)
                },
                Err(e) => {
                    &&& e == if self@.has_descriptor(storage_id as int, hash@) {
                        RepoError::IntegrityError
                    } else {
                        RepoError::NotFound
                    }
                    &&& !(self@.has_descriptor(storage_id as int, hash@) && self@.has_object(
                        storage_id as int,
                        hash@,
                    ))
                },
            },
    {
        let wanted = hash.to_owned();
        if self.descriptor_position(storage_id, &wanted).is_none() {
            return Err(RepoError::NotFound);
        }
        match self.object_index(storage_id, &wanted) {
            Some(i) => {
                proof {
                    lemma_bytes_of(self@, i as int);
                }
                assert(self@.objects[i as int].bytes == self.objects@[i as int].bytes@);
                Ok(copy_bytes(&self.objects[i].bytes))
            },
            None => Err(RepoError::IntegrityError),
        }
    }

    /// Drops the copy for `hash` in the location `storage_id` from the
    /// byte store, as when the physical file is lost; the descriptor
    /// stays. Returns whether a copy was there.
    pub fn discard_bytes(&mut self, storage_id: i64, hash: &str) -> (dropped: bool)
        requires
            old(self)@.wf(),
        ensures
            final(self)@.wf(),
            dropped == old(self)@.has_object(storage_id as int, hash@),
            final(self)@ == old(self)@.discard(storage_id as int, hash@),
    {
        let wanted = hash.to_owned();
        proof {
            lemma_discard(self@, storage_id as int, hash@);
        }
        match self.object_index(storage_id, &wanted) {
            Some(i) => {
                proof {
                    let k = self@.object_position(storage_id as int, hash@);
                    assert(k == i);
                    assert(object_views(self.objects@.remove(i as int)) =~= object_views(
                        self.objects@,
                    ).remove(i as int));
                }
                self.objects.remove(i);
                true
            },
            None => false,
        }
    }
}

} // verus!
