//! The query engine: files selected by a conjunction of tag predicates,
//! each of which asks for a tag or forbids it.

use vstd::prelude::*;
use crate::catalog::TagKey;
use crate::file::{file_views, lemma_file_views_push, File, FileView};
use crate::repo::{Repo, RepoView};
use crate::seqs::{
    lemma_filter_all_or_nothing, lemma_filter_empty, lemma_filter_members, lemma_filter_step,
};
use crate::text::{parse_namespace_and_tag, parsed_tag};

verus! {

broadcast use crate::repo::lemma_repo_view;

/// A tag predicate: the identity of a tag and whether files carrying it
/// are excluded.
pub type Predicate = (TagKey, bool);

/// The predicates that a list of raw tag names with negate flags stands
/// for.
pub open spec fn query_of(tags: Seq<(String, bool)>) -> Seq<Predicate> {
    tags.map_values(|t: (String, bool)| (parsed_tag(t.0@), t.1))
}

impl RepoView {
    /// Whether the file `file_id` carries the tag with the identity
    /// `key`. No file carries a tag that does not exist.
    pub open spec fn carries(self, file_id: int, key: TagKey) -> bool {
        self.catalog.has_tag(key) && self.linked(file_id, self.catalog.tag_with(key).id)
    }

    /// Whether the file `file_id` meets a predicate: it carries the tag
    /// unless the predicate is negated, in which case it must not.
    pub open spec fn meets(self, file_id: int, predicate: Predicate) -> bool {
        self.carries(file_id, predicate.0) != predicate.1
    }

    /// Whether the file `file_id` meets every predicate.
    pub open spec fn matches(self, file_id: int, predicates: Seq<Predicate>) -> bool {
        forall|i: int| 0 <= i < predicates.len() ==> self.meets(file_id, #[trigger] predicates[i])
    }

    /// The files that meet every predicate, in table order.
    pub open spec fn find_files(self, predicates: Seq<Predicate>) -> Seq<FileView> {
        self.files.filter(|f: FileView| self.matches(f.id, predicates))
    }
}

/// Query conjunction: a file is in the result exactly if it is a file of
/// the repository that carries every tag asked for and none of the tags
/// forbidden.
pub proof fn lemma_find_files_is_conjunction(r: RepoView, predicates: Seq<Predicate>, file: FileView)
    ensures
        r.find_files(predicates).contains(file) <==> r.files.contains(file) && forall|i: int|
            0 <= i < predicates.len() ==> (r.carries(file.id, (#[trigger] predicates[i]).0)
                != predicates[i].1),
{
    lemma_filter_members(r.files, |f: FileView| r.matches(f.id, predicates));
}

/// Query on a missing tag: asking for a tag that does not exist selects
/// no file, and forbidding it selects every file.
pub proof fn lemma_query_on_missing_tag(r: RepoView, key: TagKey)
    requires
        !r.catalog.has_tag(key),
    ensures
        r.find_files(seq![(key, false)]) == Seq::<FileView>::empty(),
        r.find_files(seq![(key, true)]) == r.files,
{
    let asked = seq![(key, false)];
    let forbidden = seq![(key, true)];
    assert forall|i: int| 0 <= i < r.files.len() implies !r.matches(
        (#[trigger] r.files[i]).id,
        asked,
    ) by {
        assert(!r.meets(r.files[i].id, asked[0]));
    }
    lemma_filter_all_or_nothing(r.files, |f: FileView| r.matches(f.id, asked));
    lemma_filter_all_or_nothing(r.files, |f: FileView| r.matches(f.id, forbidden));
}

/// A query without predicates selects every file.
pub proof fn lemma_empty_query(r: RepoView)
    ensures
        r.find_files(Seq::<Predicate>::empty()) == r.files,
{
    lemma_filter_all_or_nothing(r.files, |f: FileView| r.matches(f.id, Seq::<Predicate>::empty()));
}

impl Repo {
    fn resolve(&self, tags: &Vec<(String, bool)>) -> (resolved: Vec<(Option<i64>, bool)>)
        requires
            self@.wf(),
        ensures
            resolved.len() == tags.len(),
            forall|i: int|
                0 <= i < tags.len() ==> resolves(
                    self@,
                    #[trigger] query_of(tags@)[i],
                    resolved@[i],
                ),
    {
        let mut resolved: Vec<(Option<i64>, bool)> = Vec::new();
        let mut i: usize = 0;
        while i < tags.len()
            invariant
                i <= tags.len(),
                self@.wf(),
                resolved.len() == i,
                forall|j: int|
                    0 <= j < i ==> resolves(self@, #[trigger] query_of(tags@)[j], resolved@[j]),
            decreases tags.len() - i,
        {
            let (namespace, name) = parse_namespace_and_tag(tags[i].0.as_str());
            let id = match self.catalog.tag_by_name(&namespace, &name) {
                Some(tag) => Some(tag.id),
                None => None,
            };
            resolved.push((id, tags[i].1));
            i += 1;
        }
        resolved
    }

    fn file_matches(&self, file_id: i64, resolved: &Vec<(Option<i64>, bool)>, Ghost(predicates): Ghost<
        Seq<Predicate>,
    >) -> (ok: bool)
        requires
            resolved.len() == predicates.len(),
            forall|i: int|
                0 <= i < predicates.len() ==> resolves(
                    self@,
                    #[trigger] predicates[i],
                    resolved@[i],
                ),
        ensures
            ok == self@.matches(file_id as int, predicates),
    {
        let mut i: usize = 0;
        while i < resolved.len()
            invariant
                i <= resolved.len(),
                resolved.len() == predicates.len(),
                forall|j: int|
                    0 <= j < predicates.len() ==> resolves(
                        self@,
                        #[trigger] predicates[j],
                        resolved@[j],
                    ),
                forall|j: int| 0 <= j < i ==> self@.meets(file_id as int, #[trigger] predicates[j]),
            decreases resolved.len() - i,
        {
            let carries = match resolved[i].0 {
                Some(id) => self.has_link(file_id, id),
                None => false,
            };
            assert(resolves(self@, predicates[i as int], resolved@[i as int]));
            if carries == resolved[i].1 {
                assert(!self@.meets(file_id as int, predicates[i as int]));
                return false;
            }
            i += 1;
        }
        true
    }

    /// The files that meet every tag predicate of `tags`, in table
    /// order. Each predicate names a tag as `namespace:name` or as a
    /// bare name and says whether files carrying it are excluded.
    ///
    /// A file is selected where it carries every tag that is asked for
    /// and none that is excluded. A tag that does not exist is carried
    /// by no file.
    pub fn find_files_by_tags(&self, tags: Vec<(String, bool)>) -> (found: Vec<File>)
        requires
            self@.wf(),
        ensures
            file_views(found@) == self@.find_files(query_of(tags@)),
    {
        let resolved = self.resolve(&tags);
        let ghost predicates = query_of(tags@);
        let ghost pred = |f: FileView| self@.matches(f.id, predicates);
        let mut found: Vec<File> = Vec::new();
        let mut i: usize = 0;
        proof {
            lemma_filter_empty(self@.files.take(0), pred);
        }
        while i < self.files.len()
            invariant
                i <= self.files.len(),
                predicates == query_of(tags@),
                resolved.len() == predicates.len(),
                forall|j: int|
                    0 <= j < predicates.len() ==> resolves(
                        self@,
                        #[trigger] predicates[j],
                        resolved@[j],
                    ),
                pred == |f: FileView| self@.matches(f.id, predicates),
                file_views(found@) == self@.files.take(i as int).filter(pred),
            decreases self.files.len() - i,
        {
            proof {
                lemma_filter_step(self@.files, pred, i as int);
                lemma_file_views_push(found@, self.files@[i as int]);
                assert(self@.files[i as int] == self.files@[i as int]@);
            }
            if self.file_matches(self.files[i].id, &resolved, Ghost(predicates)) {
                found.push(self.files[i].clone());
            }
            i += 1;
        }
        assert(self@.files.take(i as int) =~= self@.files);
        found
    }
}

/// Whether `resolved` is what a predicate resolves to: the id of its
/// tag, if the tag exists, and its negate flag.
pub open spec fn resolves(r: RepoView, predicate: Predicate, resolved: (Option<i64>, bool)) -> bool {
    &&& resolved.1 == predicate.1
    &&& match resolved.0 {
        Some(id) => r.catalog.has_tag(predicate.0) && id == r.catalog.tag_with(predicate.0).id,
        None => !r.catalog.has_tag(predicate.0),
    }
}

} // verus!
