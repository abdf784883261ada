//! Tag operations of the repository: finding and creating tags from raw
//! names, linking tags to files, and listing the tags of files.

use vstd::prelude::*;
use crate::catalog::{
    key_of, keys_of, lemma_add_all, lemma_batch_of_one, lemma_tag_views_push, tag_views, texts,
    CatalogView, Tag, TagKey, TagView, MAX_ROWS,
};
use crate::error::{RepoError, RepoResult};
use crate::repo::{link_views, Repo, RepoView};
use crate::seqs::{lemma_filter_empty, lemma_filter_step};
use crate::text::{
    canonical_key, canonical_keys, canonical_pair, optional_text, parse_namespace_and_tag,
    parsed_tag, parsed_tags,
};

verus! {

broadcast use crate::repo::lemma_repo_view;

impl RepoView {
    /// Whether the file `file_id` is linked to the tag `tag_id`.
    pub open spec fn linked(self, file_id: int, tag_id: int) -> bool {
        self.links.contains((file_id, tag_id))
    }

    /// Whether some file with the content descriptor `cd_id` is linked
    /// to the tag `tag_id`.
    pub open spec fn descriptor_linked(self, cd_id: int, tag_id: int) -> bool {
        exists|f: int|
            1 <= f <= self.files.len() && (#[trigger] self.files[f - 1]).cd_id == cd_id
                && self.links.contains((f, tag_id))
    }

    /// Whether some file whose content hash is among `hashes` is linked
    /// to the tag `tag_id`.
    pub open spec fn hashes_linked(self, hashes: Seq<Seq<char>>, tag_id: int) -> bool {
        exists|f: int|
            1 <= f <= self.files.len() && hashes.contains((#[trigger] self.files[f - 1]).hash)
                && self.links.contains((f, tag_id))
    }

    /// The tags of the file `file_id`, in table order.
    pub open spec fn tags_of_file(self, file_id: int) -> Seq<TagView> {
        self.catalog.tags.filter(|t: TagView| self.linked(file_id, t.id))
    }

    /// The tags of the files with the content descriptor `cd_id`, in
    /// table order.
    pub open spec fn tags_of_descriptor(self, cd_id: int) -> Seq<TagView> {
        self.catalog.tags.filter(|t: TagView| self.descriptor_linked(cd_id, t.id))
    }

    /// The tags of the files whose content hash is among `hashes`, in
    /// table order.
    pub open spec fn tags_of_hashes(self, hashes: Seq<Seq<char>>) -> Seq<TagView> {
        self.catalog.tags.filter(|t: TagView| self.hashes_linked(hashes, t.id))
    }

    /// The repository after the file `file_id` has been linked to the
    /// tag `tag_id`: unchanged where the link exists.
    pub open spec fn link(self, file_id: int, tag_id: int) -> RepoView {
        if self.linked(file_id, tag_id) {
            self
        } else {
            RepoView { links: self.links.push((file_id, tag_id)), ..self }
        }
    }

    /// Whether the tag `tag_id` exists.
    pub open spec fn has_tag_id(self, tag_id: int) -> bool {
        1 <= tag_id <= self.catalog.tags.len()
    }

    /// The repository with another catalog in place of its own.
    pub open spec fn with_catalog(self, catalog: CatalogView) -> RepoView {
        RepoView { catalog, ..self }
    }
}

/// Linking a file that exists to a tag that exists keeps the repository
/// well formed, and linking again changes nothing.
pub proof fn lemma_link(r: RepoView, file_id: int, tag_id: int)
    requires
        r.wf(),
        r.has_file(file_id),
        r.has_tag_id(tag_id),
    ensures
        r.link(file_id, tag_id).wf(),
        r.link(file_id, tag_id).linked(file_id, tag_id),
        r.link(file_id, tag_id).link(file_id, tag_id) == r.link(file_id, tag_id),
{
    let t = r.link(file_id, tag_id);
    if !r.linked(file_id, tag_id) {
        let n = r.links.len() as int;
        assert(t.links[n] == (file_id, tag_id));
        assert forall|i: int, j: int| 0 <= i < t.links.len() && 0 <= j < t.links.len() && i
            != j implies t.links[i] != t.links[j] by {
            if i < n && j < n {
                assert(t.links[i] == r.links[i]);
                assert(t.links[j] == r.links[j]);
            } else if i < n {
                assert(t.links[i] == r.links[i]);
            } else {
                assert(t.links[j] == r.links[j]);
            }
        }
        assert forall|i: int| 0 <= i < t.links.len() implies 1 <= (#[trigger] t.links[i]).0
            <= t.files.len() && 1 <= t.links[i].1 <= t.catalog.tags.len() by {
            if i < n {
                assert(t.links[i] == r.links[i]);
            }
        }
    }
}

/// A catalog that has grown by a batch of identities keeps the
/// repository well formed.
pub proof fn lemma_catalog_grows(r: RepoView, keys: Seq<TagKey>)
    requires
        r.wf(),
        r.catalog.has_room_for(keys),
    ensures
        r.with_catalog(r.catalog.add_all(keys)).wf(),
{
    lemma_add_all(r.catalog, keys);
}

/// A list of name pairs with each pair in canonical form.
pub fn canonical_pairs(pairs: &Vec<(Option<String>, String)>) -> (normal: Vec<(Option<String>, String)>)
    ensures
        keys_of(normal@) == canonical_keys(pairs@),
{
    let mut normal: Vec<(Option<String>, String)> = Vec::new();
    let mut i: usize = 0;
    while i < pairs.len()
        invariant
            i <= pairs.len(),
            keys_of(normal@) == canonical_keys(pairs@).take(i as int),
        decreases pairs.len() - i,
    {
        let pair = canonical_pair(&pairs[i].0, &pairs[i].1);
        proof {
            assert(keys_of(normal@.push(pair)) =~= keys_of(normal@).push(key_of(pair)));
            assert(canonical_keys(pairs@)[i as int] == key_of(pair));
        }
        normal.push(pair);
        i += 1;
        assert(keys_of(normal@) =~= canonical_keys(pairs@).take(i as int));
    }
    assert(canonical_keys(pairs@).take(i as int) =~= canonical_keys(pairs@));
    normal
}

impl Repo {
    /// All tags, in table order.
    pub fn tags(&self) -> (rows: Vec<Tag>)
        ensures
            tag_views(rows@) == self@.catalog.tags,
    {
        self.catalog.tags()
    }

    /// The tags whose identity, in canonical form, is among `tags`, in
    /// table order.
    pub fn tags_by_names(&self, tags: Vec<(Option<String>, String)>) -> (found: Vec<Tag>)
        ensures
            tag_views(found@) == self@.catalog.tags_among(canonical_keys(tags@)),
    {
        let normal = canonical_pairs(&tags);
        self.catalog.tags_by_names(&normal)
    }

    /// Finds or creates a tag for every name pair of `tags`, taken in
    /// canonical form, and returns the tags of the batch. Where the
    /// tables cannot take the new rows the call fails with
    /// `CapacityExceeded` and changes nothing.
    pub fn add_all_tags(&mut self, tags: Vec<(Option<String>, String)>) -> (result: RepoResult<
        Vec<Tag>,
    >)
        requires
            old(self)@.wf(),
        ensures
            final(self)@.wf(),
            match result {
                Ok(rows) => {
                    &&& old(self)@.catalog.has_room_for(canonical_keys(tags@))
                    &&& final(self)@ == old(self)@.with_catalog(
                        old(self)@.catalog.add_all(canonical_keys(tags@)),
                    )
                    &&& tag_views(rows@) == final(self)@.catalog.tags_among(canonical_keys(tags@))
                },
                Err(e) => {
                    &&& !old(self)@.catalog.has_room_for(canonical_keys(tags@))
                    &&& e == RepoError::CapacityExceeded
                    &&& final(self)@ == old(self)@
                },
            },
    {
        let normal = canonical_pairs(&tags);
        proof {
            if self@.catalog.has_room_for(keys_of(normal@)) {
                lemma_catalog_grows(self@, keys_of(normal@));
            }
        }
        self.catalog.add_all(normal)
    }

    /// Finds or creates a tag for every raw string of `tags`, each
    /// naming a tag as `namespace:name` or as a bare name, and returns
    /// the tags of the batch. Where the tables cannot take the new rows
    /// the call fails with `CapacityExceeded` and changes nothing.
    pub fn create_tags(&mut self, tags: Vec<String>) -> (result: RepoResult<Vec<Tag>>)
        requires
            old(self)@.wf(),
        ensures
            final(self)@.wf(),
            match result {
                Ok(rows) => {
                    &&& old(self)@.catalog.has_room_for(parsed_tags(tags@))
                    &&& final(self)@ == old(self)@.with_catalog(
                        old(self)@.catalog.add_all(parsed_tags(tags@)),
                    )
                    &&& tag_views(rows@) == final(self)@.catalog.tags_among(parsed_tags(tags@))
                },
                Err(e) => {
                    &&& !old(self)@.catalog.has_room_for(parsed_tags(tags@))
                    &&& e == RepoError::CapacityExceeded
                    &&& final(self)@ == old(self)@
                },
            },
    {
        let mut pairs: Vec<(Option<String>, String)> = Vec::new();
        let mut i: usize = 0;
        while i < tags.len()
            invariant
                i <= tags.len(),
                keys_of(pairs@) == parsed_tags(tags@).take(i as int),
            decreases tags.len() - i,
        {
            let pair = parse_namespace_and_tag(tags[i].as_str());
            proof {
                assert(keys_of(pairs@.push(pair)) =~= keys_of(pairs@).push(key_of(pair)));
            }
            pairs.push(pair);
            i += 1;
            assert(keys_of(pairs@) =~= parsed_tags(tags@).take(i as int));
        }
        assert(parsed_tags(tags@).take(i as int) =~= parsed_tags(tags@));
        proof {
            if self@.catalog.has_room_for(keys_of(pairs@)) {
                lemma_catalog_grows(self@, keys_of(pairs@));
            }
        }
        self.catalog.add_all(pairs)
    }

    /// Finds or creates the tag that the raw string `tag` names, as
    /// `namespace:name` or as a bare name.
    ///
    /// Fails with `CapacityExceeded` where a table cannot take a new
    /// row; nothing is changed then.
    pub fn add_or_find_tag(&mut self, tag: &str) -> (result: RepoResult<Tag>)
        requires
            old(self)@.wf(),
        ensures
            final(self)@.wf(),
            found_or_created(old(self)@, parsed_tag(tag@), final(self)@, result),
    {
        let (namespace, name) = parse_namespace_and_tag(tag);
        self.find_or_create_tag(namespace, name)
    }

    /// Finds or creates the tag without namespace called `name`, in
    /// normal form.
    pub fn add_or_find_unnamespaced_tag(&mut self, name: String) -> (result: RepoResult<Tag>)
        requires
            old(self)@.wf(),
        ensures
            final(self)@.wf(),
            found_or_created(old(self)@, canonical_key(None, name@), final(self)@, result),
    {
        let (namespace, name) = canonical_pair(&None, &name);
        self.find_or_create_tag(namespace, name)
    }

    /// Finds or creates the tag called `name` in the namespace
    /// `namespace`, both in normal form.
    pub fn add_or_find_namespaced_tag(&mut self, name: String, namespace: String) -> (result:
        RepoResult<Tag>)
        requires
            old(self)@.wf(),
        ensures
            final(self)@.wf(),
            found_or_created(
                old(self)@,
                canonical_key(Some(namespace@), name@),
                final(self)@,
                result,
            ),
    {
        let (namespace, name) = canonical_pair(&Some(namespace), &name);
        self.find_or_create_tag(namespace, name)
    }

    /// Creates the tag without namespace called `name`, in normal form.
    /// Fails with `Conflict` where the tag exists.
    pub fn add_unnamespaced_tag(&mut self, name: String) -> (result: RepoResult<Tag>)
        requires
            old(self)@.wf(),
        ensures
            final(self)@.wf(),
            created(old(self)@, canonical_key(None, name@), final(self)@, result),
    {
        let (namespace, name) = canonical_pair(&None, &name);
        self.create_tag(namespace, name)
    }

    /// Creates the tag called `name` in the namespace `namespace`, both
    /// in normal form, creating the namespace unless it exists. Fails
    /// with `Conflict` where the tag exists.
    pub fn add_namespaced_tag(&mut self, name: String, namespace: String) -> (result: RepoResult<
        Tag,
    >)
        requires
            old(self)@.wf(),
        ensures
            final(self)@.wf(),
            created(old(self)@, canonical_key(Some(namespace@), name@), final(self)@, result),
    {
        let (namespace, name) = canonical_pair(&Some(namespace), &name);
        self.create_tag(namespace, name)
    }

    fn find_or_create_tag(&mut self, namespace: Option<String>, name: String) -> (result:
        RepoResult<Tag>)
        requires
            old(self)@.wf(),
        ensures
            final(self)@.wf(),
            found_or_created(
                old(self)@,
                (optional_text(namespace), name@),
                final(self)@,
                result,
            ),
    {
        proof {
            let key = (optional_text(namespace), name@);
            if self@.catalog.has_room_for_one(key) {
                lemma_batch_of_one(self@.catalog, key);
                lemma_catalog_grows(self@, seq![key]);
            }
        }
        self.catalog.find_or_create(namespace, name)
    }

    fn create_tag(&mut self, namespace: Option<String>, name: String) -> (result: RepoResult<Tag>)
        requires
            old(self)@.wf(),
        ensures
            final(self)@.wf(),
            created(old(self)@, (optional_text(namespace), name@), final(self)@, result),
    {
        proof {
            let key = (optional_text(namespace), name@);
            if self@.catalog.has_room_for_one(key) {
                lemma_batch_of_one(self@.catalog, key);
                lemma_catalog_grows(self@, seq![key]);
            }
        }
        self.catalog.create(namespace, name)
    }

    /// Whether the file `file_id` is linked to the tag `tag_id`.
    pub fn has_link(&self, file_id: i64, tag_id: i64) -> (linked: bool)
        ensures
            linked == self@.linked(file_id as int, tag_id as int),
    {
        let mut i: usize = 0;
        while i < self.links.len()
            invariant
                i <= self.links.len(),
                forall|j: int|
                    0 <= j < i ==> #[trigger] link_views(self.links@)[j] != (
                        file_id as int,
                        tag_id as int,
                    ),
            decreases self.links.len() - i,
        {
            if self.links[i].0 == file_id && self.links[i].1 == tag_id {
                assert(link_views(self.links@)[i as int] == (file_id as int, tag_id as int));
                return true;
            }
            i += 1;
        }
        false
    }

    /// Links the file `file_id` to the tag `tag_id`; linking again
    /// changes nothing. Fails with `NotFound` where the file or the tag
    /// is unknown.
    pub fn tag_file(&mut self, file_id: i64, tag_id: i64) -> (result: RepoResult<()>)
        requires
            old(self)@.wf(),
        ensures
            final(self)@.wf(),
            match result {
                Ok(_) => {
                    &&& old(self)@.has_file(file_id as int)
                    &&& old(self)@.has_tag_id(tag_id as int)
                    &&& final(self)@ == old(self)@.link(file_id as int, tag_id as int)
                },
                Err(e) => {
                    &&& !(old(self)@.has_file(file_id as int) && old(self)@.has_tag_id(
                        tag_id as int,
                    ))
                    &&& e == RepoError::NotFound
                    &&& final(self)@ == old(self)@
                },
            },
    {
        let file_known = 1 <= file_id && file_id <= MAX_ROWS as i64 && (file_id as usize)
            <= self.files.len();
        let tag_known = self.catalog.tag_by_id(tag_id).is_some();
        if !file_known || !tag_known {
            return Err(RepoError::NotFound);
        }
        proof {
            lemma_link(self@, file_id as int, tag_id as int);
        }
        if !self.has_link(file_id, tag_id) {
            assert(link_views(self.links@.push((file_id, tag_id))) =~= link_views(
                self.links@,
            ).push((file_id as int, tag_id as int)));
            self.links.push((file_id, tag_id));
        }
        Ok(())
    }

    fn descriptor_has_tag(&self, cd_id: i64, tag_id: i64) -> (linked: bool)
        requires
            self@.wf(),
        ensures
            linked == self@.descriptor_linked(cd_id as int, tag_id as int),
    {
        let mut i: usize = 0;
        while i < self.links.len()
            invariant
                i <= self.links.len(),
                self@.wf(),
                forall|j: int|
                    0 <= j < i ==> !((#[trigger] self@.links[j]).1 == tag_id && self@.files[self@.links[j].0
                        - 1].cd_id == cd_id),
            decreases self.links.len() - i,
        {
            let link = self.links[i];
            assert(self@.links[i as int] == (link.0 as int, link.1 as int));
            assert(1 <= self@.links[i as int].0 <= self@.files.len());
            if link.1 == tag_id && self.files[(link.0 - 1) as usize].cd_id == cd_id {
                assert(self@.links.contains((link.0 as int, tag_id as int)));
                assert(self@.files[link.0 - 1].cd_id == cd_id);
                return true;
            }
            i += 1;
        }
        proof {
            if self@.descriptor_linked(cd_id as int, tag_id as int) {
                let f = choose|f: int|
                    1 <= f <= self@.files.len() && (#[trigger] self@.files[f - 1]).cd_id == cd_id
                        && self@.links.contains((f, tag_id as int));
                let j = choose|j: int|
                    0 <= j < self@.links.len() && self@.links[j] == (f, tag_id as int);
                assert(self@.links[j].1 == tag_id);
            }
        }
        false
    }

    fn hashes_have_tag(&self, hashes: &Vec<String>, tag_id: i64) -> (linked: bool)
        requires
            self@.wf(),
        ensures
            linked == self@.hashes_linked(texts(hashes@), tag_id as int),
    {
        let ghost wanted = texts(hashes@);
        let mut i: usize = 0;
        while i < self.links.len()
            invariant
                i <= self.links.len(),
                self@.wf(),
                wanted == texts(hashes@),
                forall|j: int|
                    0 <= j < i ==> !((#[trigger] self@.links[j]).1 == tag_id && wanted.contains(
                        self@.files[self@.links[j].0 - 1].hash,
                    )),
            decreases self.links.len() - i,
        {
            let link = self.links[i];
            assert(self@.links[i as int] == (link.0 as int, link.1 as int));
            assert(1 <= self@.links[i as int].0 <= self@.files.len());
            if link.1 == tag_id {
                let file = &self.files[(link.0 - 1) as usize];
                assert(self@.files[link.0 - 1].hash == file.hash@);
                if names_hold(hashes, &file.hash) {
                    assert(self@.links.contains((link.0 as int, tag_id as int)));
                    return true;
                }
            }
            i += 1;
        }
        proof {
            if self@.hashes_linked(wanted, tag_id as int) {
                let f = choose|f: int|
                    1 <= f <= self@.files.len() && wanted.contains(
                        (#[trigger] self@.files[f - 1]).hash,
                    ) && self@.links.contains((f, tag_id as int));
                let j = choose|j: int|
                    0 <= j < self@.links.len() && self@.links[j] == (f, tag_id as int);
                assert(self@.links[j].1 == tag_id);
            }
        }
        false
    }

    /// The tags of the file `file_id`, in table order.
    pub fn tags_of_file(&self, file_id: i64) -> (found: Vec<Tag>)
        requires
            self@.wf(),
        ensures
            tag_views(found@) == self@.tags_of_file(file_id as int),
    {
        let all = self.catalog.tags();
        let ghost pred = |t: TagView| self@.linked(file_id as int, t.id);
        let mut found: Vec<Tag> = Vec::new();
        let mut i: usize = 0;
        proof {
            lemma_filter_empty(self@.catalog.tags.take(0), pred);
        }
        while i < all.len()
            invariant
                i <= all.len(),
                tag_views(all@) == self@.catalog.tags,
                pred == |t: TagView| self@.linked(file_id as int, t.id),
                tag_views(found@) == self@.catalog.tags.take(i as int).filter(pred),
            decreases all.len() - i,
        {
            proof {
                lemma_filter_step(self@.catalog.tags, pred, i as int);
                lemma_tag_views_push(found@, all@[i as int]);
                assert(self@.catalog.tags[i as int] == all@[i as int]@);
            }
            if self.has_link(file_id, all[i].id) {
                found.push(all[i].clone());
            }
            i += 1;
        }
        assert(self@.catalog.tags.take(i as int) =~= self@.catalog.tags);
        found
    }

    /// The tags of the files with the content descriptor `cd_id`, in
    /// table order.
    pub fn tags_for_cd(&self, cd_id: i64) -> (found: Vec<Tag>)
        requires
            self@.wf(),
        ensures
            tag_views(found@) == self@.tags_of_descriptor(cd_id as int),
    {
        let all = self.catalog.tags();
        let ghost pred = |t: TagView| self@.descriptor_linked(cd_id as int, t.id);
        let mut found: Vec<Tag> = Vec::new();
        let mut i: usize = 0;
        proof {
            lemma_filter_empty(self@.catalog.tags.take(0), pred);
        }
        while i < all.len()
            invariant
                i <= all.len(),
                self@.wf(),
                tag_views(all@) == self@.catalog.tags,
                pred == |t: TagView| self@.descriptor_linked(cd_id as int, t.id),
                tag_views(found@) == self@.catalog.tags.take(i as int).filter(pred),
            decreases all.len() - i,
        {
            proof {
                lemma_filter_step(self@.catalog.tags, pred, i as int);
                lemma_tag_views_push(found@, all@[i as int]);
                assert(self@.catalog.tags[i as int] == all@[i as int]@);
            }
            if self.descriptor_has_tag(cd_id, all[i].id) {
                found.push(all[i].clone());
            }
            i += 1;
        }
        assert(self@.catalog.tags.take(i as int) =~= self@.catalog.tags);
        found
    }

    /// The tags of the files whose content hash is among `hashes`, in
    /// table order.
    pub fn find_tags_for_hashes(&self, hashes: Vec<String>) -> (found: Vec<Tag>)
        requires
            self@.wf(),
        ensures
            tag_views(found@) == self@.tags_of_hashes(texts(hashes@)),
    {
        let all = self.catalog.tags();
        let ghost wanted = texts(hashes@);
        let ghost pred = |t: TagView| self@.hashes_linked(wanted, t.id);
        let mut found: Vec<Tag> = Vec::new();
        let mut i: usize = 0;
        proof {
            lemma_filter_empty(self@.catalog.tags.take(0), pred);
        }
        while i < all.len()
            invariant
                i <= all.len(),
                self@.wf(),
                wanted == texts(hashes@),
                tag_views(all@) == self@.catalog.tags,
                pred == |t: TagView| self@.hashes_linked(wanted, t.id),
                tag_views(found@) == self@.catalog.tags.take(i as int).filter(pred),
            decreases all.len() - i,
        {
            proof {
                lemma_filter_step(self@.catalog.tags, pred, i as int);
                lemma_tag_views_push(found@, all@[i as int]);
                assert(self@.catalog.tags[i as int] == all@[i as int]@);
            }
            if self.hashes_have_tag(&hashes, all[i].id) {
                found.push(all[i].clone());
            }
            i += 1;
        }
        assert(self@.catalog.tags.take(i as int) =~= self@.catalog.tags);
        found
    }
}

/// Read access to the tags of one repository.
pub struct TagDao<'a> {
    ctx: &'a Repo,
}

impl<'a> TagDao<'a> {
    /// The repository that this access object reads.
    pub closed spec fn repo(&self) -> Repo {
        *self.ctx
    }

    /// An access object for the tags of `ctx`.
    pub fn new(ctx: &'a Repo) -> (dao: Self)
        ensures
            dao.repo() == *ctx,
    {
        Self { ctx }
    }

    /// The tags of the files with the content descriptor `cd_id`, in
    /// table order.
    pub fn tags_for_cd(&self, cd_id: i64) -> (found: Vec<Tag>)
        requires
            self.repo()@.wf(),
        ensures
            tag_views(found@) == self.repo()@.tags_of_descriptor(cd_id as int),
    {
        self.ctx.tags_for_cd(cd_id)
    }
}

fn names_hold(names: &Vec<String>, name: &String) -> (found: bool)
    ensures
        found == texts(names@).contains(name@),
{
    let mut i: usize = 0;
    while i < names.len()
        invariant
            i <= names.len(),
            forall|j: int| 0 <= j < i ==> texts(names@)[j] != name@,
        decreases names.len() - i,
    {
        if names[i] == *name {
            assert(texts(names@)[i as int] == name@);
            return true;
        }
        i += 1;
    }
    false
}

/// What finding or creating the identity `key` comes to: on success the
/// catalog has found or created it and the tag is its row; otherwise the
/// tables had no room and nothing has changed.
pub open spec fn found_or_created(
    before: RepoView,
    key: TagKey,
    after: RepoView,
    result: RepoResult<Tag>,
) -> bool {
    match result {
        Ok(tag) => {
            &&& before.catalog.has_room_for_one(key)
            &&& after == before.with_catalog(before.catalog.find_or_create(key))
            &&& after.catalog.has_tag(key)
            &&& tag@ == after.catalog.tag_with(key)
        },
        Err(e) => {
            &&& !before.catalog.has_room_for_one(key)
            &&& e == RepoError::CapacityExceeded
            &&& after == before
        },
    }
}

/// What creating the identity `key` comes to: on success it did not
/// exist, the catalog has created it and the tag is its row; otherwise
/// it existed (`Conflict`) or the tables had no room
/// (`CapacityExceeded`), and nothing has changed.
pub open spec fn created(before: RepoView, key: TagKey, after: RepoView, result: RepoResult<Tag>) -> bool {
    match result {
        Ok(tag) => {
            &&& !before.catalog.has_tag(key)
            &&& before.catalog.has_room_for_one(key)
            &&& after == before.with_catalog(before.catalog.find_or_create(key))
            &&& after.catalog.has_tag(key)
            &&& tag@ == after.catalog.tag_with(key)
        },
        Err(e) => {
            &&& after == before
            &&& e == if before.catalog.has_tag(key) {
                RepoError::Conflict
            } else {
                RepoError::CapacityExceeded
            }
            &&& before.catalog.has_tag(key) || !before.catalog.has_room_for_one(key)
        },
    }
}

} // verus!
