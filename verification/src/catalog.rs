//! The tag catalog: namespaces and tags, created lazily on first
//! reference and never duplicated.

use vstd::prelude::*;
use crate::error::{RepoError, RepoResult};
use crate::seqs::lemma_filter_step;
use crate::text::optional_text;

verus! {

/// The largest number of rows a table holds. Ids are row positions
/// counted from one, so every id fits an `i64`.
pub const MAX_ROWS: usize = 0x7fff_ffff;

/// A namespace row: an optional grouping prefix for tags.
#[derive(Debug)]
pub struct Namespace {
    pub id: i64,
    pub name: String,
}

/// What a namespace row holds.
pub struct NamespaceView {
    pub id: int,
    pub name: Seq<char>,
}

impl View for Namespace {
    type V = NamespaceView;

    open spec fn view(&self) -> NamespaceView {
        NamespaceView { id: self.id as int, name: self.name@ }
    }
}

impl Clone for Namespace {
    fn clone(&self) -> (copy: Self)
        ensures
            copy == *self,
    {
        Namespace { id: self.id, name: self.name.clone() }
    }
}

/// A tag row. Its identity is the pair of its namespace's name, if it has
/// a namespace, and its own name.
#[derive(Debug)]
pub struct Tag {
    pub id: i64,
    pub namespace: Option<Namespace>,
    pub name: String,
}

/// What a tag row holds.
pub struct TagView {
    pub id: int,
    pub namespace: Option<NamespaceView>,
    pub name: Seq<char>,
}

/// The identity of a tag: namespace name, if any, and tag name.
pub type TagKey = (Option<Seq<char>>, Seq<char>);

impl TagView {
    /// The identity key of this tag.
    pub open spec fn key(self) -> TagKey {
        (
            match self.namespace {
                Some(n) => Some(n.name),
                None => None,
            },
            self.name,
        )
    }
}

impl View for Tag {
    type V = TagView;

    open spec fn view(&self) -> TagView {
        TagView {
            id: self.id as int,
            namespace: match self.namespace {
                Some(n) => Some(n@),
                None => None,
            },
            name: self.name@,
        }
    }
}

impl Clone for Tag {
    fn clone(&self) -> (copy: Self)
        ensures
            copy == *self,
    {
        let namespace = match &self.namespace {
            Some(n) => Some(n.clone()),
            None => None,
        };
        Tag { id: self.id, namespace, name: self.name.clone() }
    }
}

/// The key that an executable name pair stands for.
pub open spec fn key_of(pair: (Option<String>, String)) -> TagKey {
    (optional_text(pair.0), pair.1@)
}

/// The keys that a list of executable name pairs stands for.
pub open spec fn keys_of(pairs: Seq<(Option<String>, String)>) -> Seq<TagKey> {
    pairs.map_values(|pair: (Option<String>, String)| key_of(pair))
}

/// The views of a list of tag rows.
pub open spec fn tag_views(tags: Seq<Tag>) -> Seq<TagView> {
    tags.map_values(|t: Tag| t@)
}

/// The views of a list of namespace rows.
pub open spec fn namespace_views(rows: Seq<Namespace>) -> Seq<NamespaceView> {
    rows.map_values(|n: Namespace| n@)
}

/// The elements of `s` that `known` rejects, each once, in order of first
/// occurrence.
pub open spec fn novel<T>(s: Seq<T>, known: spec_fn(T) -> bool) -> Seq<T>
    decreases s.len(),
{
    if s.len() == 0 {
        s
    } else {
        let front = novel(s.drop_last(), known);
        if known(s.last()) || front.contains(s.last()) {
            front
        } else {
            front.push(s.last())
        }
    }
}

/// The namespace names that a list of keys refers to, one per key that
/// has a namespace.
pub open spec fn namespaces_of(keys: Seq<TagKey>) -> Seq<Seq<char>>
    decreases keys.len(),
{
    if keys.len() == 0 {
        Seq::empty()
    } else {
        let front = namespaces_of(keys.drop_last());
        match keys.last().0 {
            Some(n) => front.push(n),
            None => front,
        }
    }
}

/// Whether a namespace called `name` is among `rows`.
pub open spec fn has_name(rows: Seq<NamespaceView>, name: Seq<char>) -> bool {
    exists|i: int| 0 <= i < rows.len() && (#[trigger] rows[i]).name == name
}

/// The namespace called `name` among `rows`, where one exists.
pub open spec fn row_named(rows: Seq<NamespaceView>, name: Seq<char>) -> NamespaceView {
    rows[choose|i: int| 0 <= i < rows.len() && (#[trigger] rows[i]).name == name]
}

/// Whether a tag with the identity `key` is among `rows`.
pub open spec fn has_key(rows: Seq<TagView>, key: TagKey) -> bool {
    exists|i: int| 0 <= i < rows.len() && (#[trigger] rows[i]).key() == key
}

/// The tag with the identity `key` among `rows`, where one exists.
pub open spec fn row_with(rows: Seq<TagView>, key: TagKey) -> TagView {
    rows[choose|i: int| 0 <= i < rows.len() && (#[trigger] rows[i]).key() == key]
}

/// The rows that a batch insert of `names` appends to a namespace table
/// of `start` rows.
pub open spec fn new_namespaces(start: int, names: Seq<Seq<char>>) -> Seq<NamespaceView> {
    Seq::new(names.len(), |i: int| NamespaceView { id: start + i + 1, name: names[i] })
}

/// The rows that a batch insert of `keys` appends to a tag table of
/// `start` rows: each refers to the namespace row that its key names.
pub open spec fn new_tags(namespaces: Seq<NamespaceView>, start: int, keys: Seq<TagKey>) -> Seq<
    TagView,
> {
    Seq::new(
        keys.len(),
        |i: int|
            TagView {
                id: start + i + 1,
                namespace: match keys[i].0 {
                    Some(n) => Some(row_named(namespaces, n)),
                    None => None,
                },
                name: keys[i].1,
            },
    )
}

/// The invariant of a namespace table: ids are positions counted from
/// one and no name occurs twice.
pub open spec fn namespaces_wf(rows: Seq<NamespaceView>) -> bool {
    &&& rows.len() <= MAX_ROWS
    &&& forall|i: int| 0 <= i < rows.len() ==> (#[trigger] rows[i]).id == i + 1
    &&& forall|i: int, j: int|
        0 <= i < j < rows.len() ==> (#[trigger] rows[i]).name != (#[trigger] rows[j]).name
}

/// The invariant of a tag table: ids are positions counted from one, no
/// identity occurs twice, and each tag's namespace is a row of
/// `namespaces`.
pub open spec fn tags_wf(namespaces: Seq<NamespaceView>, rows: Seq<TagView>) -> bool {
    &&& rows.len() <= MAX_ROWS
    &&& forall|i: int| 0 <= i < rows.len() ==> (#[trigger] rows[i]).id == i + 1
    &&& forall|i: int, j: int|
        0 <= i < j < rows.len() ==> (#[trigger] rows[i]).key() != (#[trigger] rows[j]).key()
    &&& forall|i: int|
        0 <= i < rows.len() ==> ((#[trigger] rows[i]).namespace matches Some(n)
            ==> namespaces.contains(n))
}

/// The tags among `rows` whose identity is among `keys`, in order.
pub open spec fn among(rows: Seq<TagView>, keys: Seq<TagKey>) -> Seq<TagView> {
    rows.filter(|t: TagView| keys.contains(t.key()))
}

/// The number of tags among `rows` whose identity is `key`.
pub open spec fn count_with(rows: Seq<TagView>, key: TagKey) -> nat {
    rows.filter(|t: TagView| t.key() == key).len()
}

/// The texts of a list of strings.
pub open spec fn texts(names: Seq<String>) -> Seq<Seq<char>> {
    names.map_values(|s: String| s@)
}

/// The mathematical content of a tag catalog: its two tables.
pub struct CatalogView {
    pub namespaces: Seq<NamespaceView>,
    pub tags: Seq<TagView>,
}

impl CatalogView {
    /// The invariant of a catalog: ids are positions counted from one,
    /// namespace names and tag keys are unique, and each tag's namespace
    /// is a row of the namespace table.
    pub open spec fn wf(self) -> bool {
        &&& namespaces_wf(self.namespaces)
        &&& tags_wf(self.namespaces, self.tags)
    }

    /// Whether a namespace called `name` exists.
    pub open spec fn has_namespace(self, name: Seq<char>) -> bool {
        has_name(self.namespaces, name)
    }

    /// The namespace called `name`, where one exists.
    pub open spec fn namespace_named(self, name: Seq<char>) -> NamespaceView {
        row_named(self.namespaces, name)
    }

    /// Whether a tag with the identity `key` exists.
    pub open spec fn has_tag(self, key: TagKey) -> bool {
        has_key(self.tags, key)
    }

    /// The tag with the identity `key`, where one exists.
    pub open spec fn tag_with(self, key: TagKey) -> TagView {
        row_with(self.tags, key)
    }

    /// The number of tag rows whose identity is `key`.
    pub open spec fn rows_with(self, key: TagKey) -> nat {
        count_with(self.tags, key)
    }

    /// The catalog after a batch insert of the namespaces `names`, in
    /// order, each with the next free id.
    pub open spec fn insert_namespaces(self, names: Seq<Seq<char>>) -> CatalogView {
        CatalogView {
            namespaces: self.namespaces + new_namespaces(self.namespaces.len() as int, names),
            tags: self.tags,
        }
    }

    /// The catalog after a batch insert of tags with the identities
    /// `keys`, in order, each with the next free id.
    pub open spec fn insert_tags(self, keys: Seq<TagKey>) -> CatalogView {
        CatalogView {
            namespaces: self.namespaces,
            tags: self.tags + new_tags(self.namespaces, self.tags.len() as int, keys),
        }
    }

    /// The namespace names among `keys` that the catalog lacks, each
    /// once, in order of first reference.
    pub open spec fn missing_namespaces(self, keys: Seq<TagKey>) -> Seq<Seq<char>> {
        novel(namespaces_of(keys), |n: Seq<char>| has_name(self.namespaces, n))
    }

    /// The identities among `keys` that the catalog lacks, each once, in
    /// order of first reference.
    pub open spec fn missing_tags(self, keys: Seq<TagKey>) -> Seq<TagKey> {
        novel(keys, |k: TagKey| has_key(self.tags, k))
    }

    /// The catalog after every identity in `keys` has been found or
    /// created: the missing namespaces are inserted first, then the
    /// missing tags.
    pub open spec fn add_all(self, keys: Seq<TagKey>) -> CatalogView {
        self.insert_namespaces(self.missing_namespaces(keys)).insert_tags(self.missing_tags(keys))
    }

    /// The catalog after the identity `key` has been found or created:
    /// unchanged where the tag exists; otherwise its namespace is
    /// created unless it exists, and then the tag.
    pub open spec fn find_or_create(self, key: TagKey) -> CatalogView {
        if self.has_tag(key) {
            self
        } else {
            let prepared = match key.0 {
                Some(n) => if self.has_namespace(n) {
                    self
                } else {
                    self.insert_namespaces(seq![n])
                },
                None => self,
            };
            prepared.insert_tags(seq![key])
        }
    }

    /// The tags of the catalog whose identity is among `keys`, in table
    /// order.
    pub open spec fn tags_among(self, keys: Seq<TagKey>) -> Seq<TagView> {
        among(self.tags, keys)
    }

    /// Whether `add_all(keys)` fits the tables.
    pub open spec fn has_room_for(self, keys: Seq<TagKey>) -> bool {
        &&& self.namespaces.len() + self.missing_namespaces(keys).len() <= MAX_ROWS
        &&& self.tags.len() + self.missing_tags(keys).len() <= MAX_ROWS
    }

    /// Whether `find_or_create(key)` fits the tables.
    pub open spec fn has_room_for_one(self, key: TagKey) -> bool {
        self.has_tag(key) || {
            &&& self.tags.len() < MAX_ROWS
            &&& (key.0 matches Some(n) ==> self.has_namespace(n) || self.namespaces.len() < MAX_ROWS)
        }
    }
}

/// What `novel` keeps: nothing known, nothing twice, only elements of
/// `s`, and every element of `s` that is not known.
pub proof fn lemma_novel<T>(s: Seq<T>, known: spec_fn(T) -> bool)
    ensures
        novel(s, known).len() <= s.len(),
        novel(s, known).no_duplicates(),
        forall|i: int| 0 <= i < novel(s, known).len() ==> !known(#[trigger] novel(s, known)[i]),
        forall|i: int|
            0 <= i < novel(s, known).len() ==> s.contains(#[trigger] novel(s, known)[i]),
        forall|i: int|
            0 <= i < s.len() ==> known(#[trigger] s[i]) || novel(s, known).contains(s[i]),
    decreases s.len(),
{
    let out = novel(s, known);
    if s.len() > 0 {
        let rest = s.drop_last();
        let front = novel(rest, known);
        lemma_novel(rest, known);
        assert forall|i: int| 0 <= i < out.len() implies s.contains(#[trigger] out[i]) by {
            if i < front.len() {
                let j = choose|j: int| 0 <= j < rest.len() && rest[j] == front[i];
                assert(s[j] == front[i]);
            } else {
                assert(s[s.len() - 1] == out[i]);
            }
        }
        assert forall|i: int| 0 <= i < s.len() implies known(#[trigger] s[i]) || out.contains(
            s[i],
        ) by {
            if i < rest.len() {
                assert(rest[i] == s[i]);
                if !known(s[i]) {
                    let j = choose|j: int| 0 <= j < front.len() && front[j] == rest[i];
                    assert(out[j] == s[i]);
                }
            } else if !known(s[i]) {
                if front.contains(s.last()) {
                } else {
                    assert(out[out.len() - 1] == s[i]);
                }
            }
        }
    }
}

/// Every namespace that a key of `keys` names is in `namespaces_of(keys)`,
/// and nothing else is.
pub proof fn lemma_namespaces_of(keys: Seq<TagKey>)
    ensures
        forall|i: int|
            0 <= i < keys.len() ==> ((#[trigger] keys[i]).0 matches Some(n) ==> namespaces_of(
                keys,
            ).contains(n)),
        forall|j: int|
            0 <= j < namespaces_of(keys).len() ==> exists|i: int|
                0 <= i < keys.len() && (#[trigger] keys[i]).0 == Some(
                    #[trigger] namespaces_of(keys)[j],
                ),
    decreases keys.len(),
{
    let out = namespaces_of(keys);
    if keys.len() > 0 {
        let rest = keys.drop_last();
        let front = namespaces_of(rest);
        lemma_namespaces_of(rest);
        assert forall|i: int| 0 <= i < keys.len() implies ((#[trigger] keys[i]).0 matches Some(n)
            ==> out.contains(n)) by {
            if let Some(n) = keys[i].0 {
                if i < rest.len() {
                    assert(rest[i] == keys[i]);
                    let j = choose|j: int| 0 <= j < front.len() && front[j] == n;
                    assert(out[j] == n);
                } else {
                    assert(out[out.len() - 1] == n);
                }
            }
        }
        assert forall|j: int| 0 <= j < out.len() implies exists|i: int|
            0 <= i < keys.len() && (#[trigger] keys[i]).0 == Some(#[trigger] out[j]) by {
            if j < front.len() {
                let i = choose|i: int| 0 <= i < rest.len() && (#[trigger] rest[i]).0 == Some(front[j]);
                assert(keys[i] == rest[i]);
            } else {
                assert(keys[keys.len() - 1].0 == Some(out[j]));
            }
        }
    }
}


/// The views of a namespace list that grew by one row.
pub proof fn lemma_namespace_views_push(rows: Seq<Namespace>, row: Namespace)
    ensures
        namespace_views(rows.push(row)) == namespace_views(rows).push(row@),
{
    assert(namespace_views(rows.push(row)) =~= namespace_views(rows).push(row@));
}

/// The views of a tag list that grew by one row.
pub proof fn lemma_tag_views_push(rows: Seq<Tag>, row: Tag)
    ensures
        tag_views(rows.push(row)) == tag_views(rows).push(row@),
{
    assert(tag_views(rows.push(row)) =~= tag_views(rows).push(row@));
}

/// In a well-formed namespace table a name finds its own row.
pub proof fn lemma_row_named(rows: Seq<NamespaceView>, i: int)
    requires
        namespaces_wf(rows),
        0 <= i < rows.len(),
    ensures
        has_name(rows, rows[i].name),
        row_named(rows, rows[i].name) == rows[i],
{
    let name = rows[i].name;
    let j = choose|j: int| 0 <= j < rows.len() && (#[trigger] rows[j]).name == name;
    assert(j == i);
}

/// In a well-formed tag table an identity finds its own row.
pub proof fn lemma_row_with(namespaces: Seq<NamespaceView>, rows: Seq<TagView>, i: int)
    requires
        tags_wf(namespaces, rows),
        0 <= i < rows.len(),
    ensures
        has_key(rows, rows[i].key()),
        row_with(rows, rows[i].key()) == rows[i],
{
    let key = rows[i].key();
    let j = choose|j: int| 0 <= j < rows.len() && (#[trigger] rows[j]).key() == key;
    assert(j == i);
}

/// A batch insert of new, distinct namespace names keeps the catalog
/// well formed, keeps every old row in place and makes each name
/// findable.
pub proof fn lemma_insert_namespaces(c: CatalogView, names: Seq<Seq<char>>)
    requires
        c.wf(),
        names.no_duplicates(),
        forall|i: int| 0 <= i < names.len() ==> !c.has_namespace(#[trigger] names[i]),
        c.namespaces.len() + names.len() <= MAX_ROWS,
    ensures
        c.insert_namespaces(names).wf(),
        forall|n: Seq<char>|
            c.insert_namespaces(names).has_namespace(n) <==> c.has_namespace(n) || names.contains(
                n,
            ),
        forall|n: Seq<char>|
            c.has_namespace(n) ==> c.insert_namespaces(names).namespace_named(n)
                == c.namespace_named(n),
{
    let d = c.insert_namespaces(names);
    let start = c.namespaces.len() as int;
    assert forall|i: int, j: int| 0 <= i < j < d.namespaces.len() implies (
    #[trigger] d.namespaces[i]).name != (#[trigger] d.namespaces[j]).name by {
        if j < start {
            assert(d.namespaces[i] == c.namespaces[i]);
            assert(d.namespaces[j] == c.namespaces[j]);
        } else if i < start {
            assert(d.namespaces[i] == c.namespaces[i]);
            assert(d.namespaces[j].name == names[j - start]);
        } else {
            assert(d.namespaces[i].name == names[i - start]);
            assert(d.namespaces[j].name == names[j - start]);
        }
    }
    assert forall|i: int| 0 <= i < d.tags.len() implies ((#[trigger] d.tags[i]).namespace matches Some(
        n,
    ) ==> d.namespaces.contains(n)) by {
        if let Some(n) = d.tags[i].namespace {
            assert(c.namespaces.contains(n));
            let j = choose|j: int| 0 <= j < c.namespaces.len() && c.namespaces[j] == n;
            assert(d.namespaces[j] == n);
        }
    }
    assert forall|n: Seq<char>| d.has_namespace(n) <==> c.has_namespace(n) || names.contains(
        n,
    ) by {
        if d.has_namespace(n) {
            let j = choose|j: int| 0 <= j < d.namespaces.len() && (#[trigger] d.namespaces[j]).name == n;
            if j < start {
                assert(c.namespaces[j].name == n);
            } else {
                assert(names[j - start] == n);
            }
        }
        if c.has_namespace(n) {
            let j = choose|j: int| 0 <= j < c.namespaces.len() && (#[trigger] c.namespaces[j]).name == n;
            assert(d.namespaces[j].name == n);
        }
        if names.contains(n) {
            let j = choose|j: int| 0 <= j < names.len() && names[j] == n;
            assert(d.namespaces[start + j].name == n);
        }
    }
    assert forall|n: Seq<char>| c.has_namespace(n) implies d.namespace_named(n)
        == c.namespace_named(n) by {
        let j = choose|j: int| 0 <= j < c.namespaces.len() && (#[trigger] c.namespaces[j]).name == n;
        assert(d.namespaces[j] == c.namespaces[j]);
        lemma_row_named(d.namespaces, j);
    }
}

/// A batch insert of new, distinct identities whose namespaces exist
/// keeps the catalog well formed, gives each new row the identity it
/// was made for and makes each identity findable.
pub proof fn lemma_insert_tags(c: CatalogView, keys: Seq<TagKey>)
    requires
        c.wf(),
        keys.no_duplicates(),
        forall|i: int| 0 <= i < keys.len() ==> !c.has_tag(#[trigger] keys[i]),
        forall|i: int|
            0 <= i < keys.len() ==> ((#[trigger] keys[i]).0 matches Some(n) ==> c.has_namespace(n)),
        c.tags.len() + keys.len() <= MAX_ROWS,
    ensures
        c.insert_tags(keys).wf(),
        forall|i: int|
            0 <= i < keys.len() ==> (#[trigger] c.insert_tags(keys).tags[c.tags.len() + i]).key()
                == keys[i],
        forall|k: TagKey| c.insert_tags(keys).has_tag(k) <==> c.has_tag(k) || keys.contains(k),
        forall|k: TagKey| c.has_tag(k) ==> c.insert_tags(keys).tag_with(k) == c.tag_with(k),
{
    let d = c.insert_tags(keys);
    let start = c.tags.len() as int;
    assert forall|i: int| 0 <= i < keys.len() implies (#[trigger] d.tags[start + i]).key()
        == keys[i] && (d.tags[start + i].namespace matches Some(n) ==> c.namespaces.contains(
        n,
    )) by {
        if let Some(n) = keys[i].0 {
            assert(c.has_namespace(n));
            let j = choose|j: int| 0 <= j < c.namespaces.len() && (#[trigger] c.namespaces[j]).name == n;
            lemma_row_named(c.namespaces, j);
        }
    }
    assert forall|i: int, j: int| 0 <= i < j < d.tags.len() implies (#[trigger] d.tags[i]).key() != (
    #[trigger] d.tags[j]).key() by {
        if j < start {
            assert(d.tags[i] == c.tags[i]);
            assert(d.tags[j] == c.tags[j]);
        } else if i < start {
            assert(d.tags[i] == c.tags[i]);
            assert(d.tags[start + (j - start)].key() == keys[j - start]);
        } else {
            assert(d.tags[start + (i - start)].key() == keys[i - start]);
            assert(d.tags[start + (j - start)].key() == keys[j - start]);
        }
    }
    assert forall|i: int| 0 <= i < d.tags.len() implies ((#[trigger] d.tags[i]).namespace matches Some(
        n,
    ) ==> d.namespaces.contains(n)) by {
        if i < start {
            assert(d.tags[i] == c.tags[i]);
        } else {
            assert(d.tags[start + (i - start)].key() == keys[i - start]);
        }
    }
    assert forall|k: TagKey| d.has_tag(k) <==> c.has_tag(k) || keys.contains(k) by {
        if d.has_tag(k) {
            let j = choose|j: int| 0 <= j < d.tags.len() && (#[trigger] d.tags[j]).key() == k;
            if j < start {
                assert(c.tags[j].key() == k);
            } else {
                assert(d.tags[start + (j - start)].key() == keys[j - start]);
            }
        }
        if c.has_tag(k) {
            let j = choose|j: int| 0 <= j < c.tags.len() && (#[trigger] c.tags[j]).key() == k;
            assert(d.tags[j].key() == k);
        }
        if keys.contains(k) {
            let j = choose|j: int| 0 <= j < keys.len() && keys[j] == k;
            assert(d.tags[start + j].key() == k);
        }
    }
    assert forall|k: TagKey| c.has_tag(k) implies d.tag_with(k) == c.tag_with(k) by {
        let j = choose|j: int| 0 <= j < c.tags.len() && (#[trigger] c.tags[j]).key() == k;
        assert(d.tags[j] == c.tags[j]);
        lemma_row_with(d.namespaces, d.tags, j);
    }
}

/// Finding or creating a batch of identities keeps the catalog well
/// formed, keeps every old row in place, and afterwards every identity
/// of the batch has a row.
pub proof fn lemma_add_all(c: CatalogView, keys: Seq<TagKey>)
    requires
        c.wf(),
        c.has_room_for(keys),
    ensures
        c.add_all(keys).wf(),
        c.add_all(keys).namespaces.take(c.namespaces.len() as int) == c.namespaces,
        c.add_all(keys).tags.take(c.tags.len() as int) == c.tags,
        forall|i: int| 0 <= i < keys.len() ==> c.add_all(keys).has_tag(#[trigger] keys[i]),
        forall|k: TagKey| c.has_tag(k) ==> c.add_all(keys).tag_with(k) == c.tag_with(k),
        forall|k: TagKey| c.add_all(keys).has_tag(k) <==> c.has_tag(k) || keys.contains(k),
        namespaces_wf(c.insert_namespaces(c.missing_namespaces(keys)).namespaces),
        forall|i: int|
            0 <= i < c.missing_tags(keys).len() ==> ((#[trigger] c.missing_tags(keys)[i]).0 matches Some(
                n,
            ) ==> c.insert_namespaces(c.missing_namespaces(keys)).has_namespace(n)),
{
    let names = c.missing_namespaces(keys);
    let fresh = c.missing_tags(keys);
    let known_name = |n: Seq<char>| has_name(c.namespaces, n);
    let known_key = |k: TagKey| has_key(c.tags, k);
    lemma_novel(namespaces_of(keys), known_name);
    lemma_novel(keys, known_key);
    lemma_namespaces_of(keys);
    lemma_insert_namespaces(c, names);
    let mid = c.insert_namespaces(names);
    assert forall|i: int| 0 <= i < fresh.len() implies ((#[trigger] fresh[i]).0 matches Some(n)
        ==> mid.has_namespace(n)) by {
        if let Some(n) = fresh[i].0 {
            assert(keys.contains(fresh[i]));
            let j = choose|j: int| 0 <= j < keys.len() && keys[j] == fresh[i];
            assert(keys[j].0 == Some(n));
            assert(namespaces_of(keys).contains(n));
            let m = choose|m: int| 0 <= m < namespaces_of(keys).len() && namespaces_of(keys)[m] == n;
            assert(known_name(namespaces_of(keys)[m]) || names.contains(namespaces_of(keys)[m]));
            assert(c.has_namespace(n) || names.contains(n));
            assert(mid.has_namespace(n) <==> c.has_namespace(n) || names.contains(n));
        }
    }
    assert forall|i: int| 0 <= i < fresh.len() implies !mid.has_tag(#[trigger] fresh[i]) by {
        assert(!known_key(fresh[i]));
    }
    lemma_insert_tags(mid, fresh);
    let end = c.add_all(keys);
    assert(end.namespaces.take(c.namespaces.len() as int) =~= c.namespaces);
    assert(end.tags.take(c.tags.len() as int) =~= c.tags);
    assert forall|i: int| 0 <= i < keys.len() implies end.has_tag(#[trigger] keys[i]) by {
        assert(known_key(keys[i]) || fresh.contains(keys[i]));
    }
    assert forall|k: TagKey| end.has_tag(k) <==> c.has_tag(k) || keys.contains(k) by {
        if fresh.contains(k) {
            let j = choose|j: int| 0 <= j < fresh.len() && fresh[j] == k;
            assert(keys.contains(fresh[j]));
        }
        if keys.contains(k) {
            let j = choose|j: int| 0 <= j < keys.len() && keys[j] == k;
            assert(known_key(keys[j]) || fresh.contains(keys[j]));
        }
    }
}


/// The tag catalog: a namespace table and a tag table.
pub struct TagCatalog {
    namespaces: Vec<Namespace>,
    tags: Vec<Tag>,
}

impl View for TagCatalog {
    type V = CatalogView;

    closed spec fn view(&self) -> CatalogView {
        CatalogView { namespaces: namespace_views(self.namespaces@), tags: tag_views(self.tags@) }
    }
}

fn copy_pair(pair: &(Option<String>, String)) -> (copy: (Option<String>, String))
    ensures
        key_of(copy) == key_of(*pair),
{
    let namespace = match &pair.0 {
        Some(n) => Some(n.clone()),
        None => None,
    };
    (namespace, pair.1.clone())
}

fn tag_has_key(tag: &Tag, namespace: &Option<String>, name: &String) -> (same: bool)
    ensures
        same == (tag@.key() == (optional_text(*namespace), name@)),
{
    let same_namespace = match (&tag.namespace, namespace) {
        (Some(row), Some(n)) => row.name == *n,
        (None, None) => true,
        _ => false,
    };
    same_namespace && tag.name == *name
}

fn pairs_contain(pairs: &Vec<(Option<String>, String)>, namespace: &Option<String>, name: &String) -> (found: bool)
    ensures
        found == keys_of(pairs@).contains((optional_text(*namespace), name@)),
{
    let ghost key = (optional_text(*namespace), name@);
    let mut i: usize = 0;
    while i < pairs.len()
        invariant
            i <= pairs.len(),
            key == (optional_text(*namespace), name@),
            forall|j: int| 0 <= j < i ==> keys_of(pairs@)[j] != key,
        decreases pairs.len() - i,
    {
        if crate::text::same_optional_text(&pairs[i].0, namespace) && pairs[i].1 == *name {
            assert(keys_of(pairs@)[i as int] == key);
            return true;
        }
        i += 1;
    }
    false
}

fn names_contain(names: &Vec<String>, name: &String) -> (found: bool)
    ensures
        found == texts(names@).contains(name@),
{
    let mut i: usize = 0;
    while i < names.len()
        invariant
            i <= names.len(),
            forall|j: int| 0 <= j < i ==> texts(names@)[j] != name@,
        decreases names.len() - i,
    {
        if names[i] == *name {
            assert(texts(names@)[i as int] == name@);
            return true;
        }
        i += 1;
    }
    false
}

impl TagCatalog {
    /// An empty catalog.
    pub fn new() -> (catalog: Self)
        ensures
            catalog@.wf(),
            catalog@.namespaces.len() == 0,
            catalog@.tags.len() == 0,
    {
        TagCatalog { namespaces: Vec::new(), tags: Vec::new() }
    }

    /// All namespaces, in table order.
    pub fn namespaces(&self) -> (rows: Vec<Namespace>)
        ensures
            namespace_views(rows@) == self@.namespaces,
    {
        let mut rows: Vec<Namespace> = Vec::new();
        let mut i: usize = 0;
        while i < self.namespaces.len()
            invariant
                i <= self.namespaces.len(),
                namespace_views(rows@) == namespace_views(self.namespaces@).take(i as int),
            decreases self.namespaces.len() - i,
        {
            proof {
                lemma_namespace_views_push(rows@, self.namespaces@[i as int]);
            }
            rows.push(self.namespaces[i].clone());
            i += 1;
            assert(namespace_views(rows@) =~= namespace_views(self.namespaces@).take(i as int));
        }
        assert(namespace_views(self.namespaces@).take(i as int) =~= namespace_views(
            self.namespaces@,
        ));
        rows
    }

    /// All tags, in table order.
    pub fn tags(&self) -> (rows: Vec<Tag>)
        ensures
            tag_views(rows@) == self@.tags,
    {
        let mut rows: Vec<Tag> = Vec::new();
        let mut i: usize = 0;
        while i < self.tags.len()
            invariant
                i <= self.tags.len(),
                tag_views(rows@) == tag_views(self.tags@).take(i as int),
            decreases self.tags.len() - i,
        {
            proof {
                lemma_tag_views_push(rows@, self.tags@[i as int]);
            }
            rows.push(self.tags[i].clone());
            i += 1;
            assert(tag_views(rows@) =~= tag_views(self.tags@).take(i as int));
        }
        assert(tag_views(self.tags@).take(i as int) =~= tag_views(self.tags@));
        rows
    }

    fn namespace_position(&self, name: &String) -> (at: Option<usize>)
        ensures
            match at {
                Some(i) => i < self@.namespaces.len() && self@.namespaces[i as int].name == name@,
                None => !self@.has_namespace(name@),
            },
    {
        let mut i: usize = 0;
        while i < self.namespaces.len()
            invariant
                i <= self.namespaces.len(),
                forall|j: int| 0 <= j < i ==> (#[trigger] self@.namespaces[j]).name != name@,
            decreases self.namespaces.len() - i,
        {
            if self.namespaces[i].name == *name {
                return Some(i);
            }
            i += 1;
        }
        None
    }

    fn tag_position(&self, namespace: &Option<String>, name: &String) -> (at: Option<usize>)
        ensures
            match at {
                Some(i) => i < self@.tags.len() && self@.tags[i as int].key() == (
                    optional_text(*namespace),
                    name@,
                ),
                None => !self@.has_tag((optional_text(*namespace), name@)),
            },
    {
        let mut i: usize = 0;
        while i < self.tags.len()
            invariant
                i <= self.tags.len(),
                forall|j: int|
                    0 <= j < i ==> (#[trigger] self@.tags[j]).key() != (
                        optional_text(*namespace),
                        name@,
                    ),
            decreases self.tags.len() - i,
        {
            if tag_has_key(&self.tags[i], namespace, name) {
                return Some(i);
            }
            i += 1;
        }
        None
    }

    /// The namespace called `name`, if there is one.
    pub fn namespace_by_name(&self, name: &String) -> (found: Option<Namespace>)
        requires
            namespaces_wf(self@.namespaces),
        ensures
            match found {
                Some(row) => self@.has_namespace(name@) && row@ == self@.namespace_named(name@),
                None => !self@.has_namespace(name@),
            },
    {
        match self.namespace_position(name) {
            Some(i) => {
                proof {
                    lemma_row_named(self@.namespaces, i as int);
                }
                Some(self.namespaces[i].clone())
            },
            None => None,
        }
    }

    /// The tag with the given namespace and name, if there is one.
    pub fn tag_by_name(&self, namespace: &Option<String>, name: &String) -> (found: Option<Tag>)
        requires
            self@.wf(),
        ensures
            match found {
                Some(row) => self@.has_tag((optional_text(*namespace), name@)) && row@
                    == self@.tag_with((optional_text(*namespace), name@)),
                None => !self@.has_tag((optional_text(*namespace), name@)),
            },
    {
        match self.tag_position(namespace, name) {
            Some(i) => {
                proof {
                    lemma_row_with(self@.namespaces, self@.tags, i as int);
                }
                Some(self.tags[i].clone())
            },
            None => None,
        }
    }

    /// The tag with the given id, if there is one.
    pub fn tag_by_id(&self, id: i64) -> (found: Option<Tag>)
        requires
            self@.wf(),
        ensures
            match found {
                Some(row) => 1 <= id <= self@.tags.len() && row@ == self@.tags[id - 1],
                None => !(1 <= id <= self@.tags.len()),
            },
    {
        if 1 <= id && id <= MAX_ROWS as i64 && (id as usize) <= self.tags.len() {
            Some(self.tags[(id - 1) as usize].clone())
        } else {
            None
        }
    }

    /// The tags whose identity is among `keys`, in table order.
    pub fn tags_by_names(&self, keys: &Vec<(Option<String>, String)>) -> (found: Vec<Tag>)
        ensures
            tag_views(found@) == self@.tags_among(keys_of(keys@)),
    {
        let ghost wanted = keys_of(keys@);
        let ghost pred = |t: TagView| wanted.contains(t.key());
        let mut found: Vec<Tag> = Vec::new();
        let mut i: usize = 0;
        assert(self@.tags.take(0).filter(pred) =~= Seq::<TagView>::empty()) by {
            reveal(Seq::filter);
        }
        while i < self.tags.len()
            invariant
                i <= self.tags.len(),
                wanted == keys_of(keys@),
                pred == |t: TagView| wanted.contains(t.key()),
                tag_views(found@) == self@.tags.take(i as int).filter(pred),
            decreases self.tags.len() - i,
        {
            let tag = &self.tags[i];
            let namespace = match &tag.namespace {
                Some(row) => Some(row.name.clone()),
                None => None,
            };
            proof {
                lemma_filter_step(self@.tags, pred, i as int);
            }
            if pairs_contain(keys, &namespace, &tag.name) {
                proof {
                    lemma_tag_views_push(found@, *tag);
                }
                found.push(tag.clone());
                assert(tag_views(found@) =~= self@.tags.take(i as int).filter(pred).push(
                    self@.tags[i as int],
                ));
            }
            i += 1;
        }
        assert(self@.tags.take(i as int) =~= self@.tags);
        found
    }

    fn missing_namespace_names(&self, keys: &Vec<(Option<String>, String)>) -> (names: Vec<String>)
        ensures
            texts(names@) == self@.missing_namespaces(keys_of(keys@)),
    {
        let ghost wanted = keys_of(keys@);
        let mut names: Vec<String> = Vec::new();
        let mut i: usize = 0;
        assert(wanted.take(0) =~= Seq::<TagKey>::empty());
        assert(texts(names@) =~= self@.missing_namespaces(wanted.take(0)));
        while i < keys.len()
            invariant
                i <= keys.len(),
                wanted == keys_of(keys@),
                texts(names@) == self@.missing_namespaces(wanted.take(i as int)),
            decreases keys.len() - i,
        {
            let ghost before = wanted.take(i as int);
            let ghost now = wanted.take(i + 1);
            assert(now.drop_last() =~= before);
            assert(now.last() == key_of(keys@[i as int]));
            match &keys[i].0 {
                Some(n) => {
                    assert(namespaces_of(now) == namespaces_of(before).push(n@));
                    assert(namespaces_of(now).drop_last() =~= namespaces_of(before));
                    if self.namespace_position(n).is_none() && !names_contain(&names, n) {
                        names.push(n.clone());
                        assert(texts(names@) =~= self@.missing_namespaces(before).push(n@));
                    }
                },
                None => {
                    assert(namespaces_of(now) == namespaces_of(before));
                },
            }
            i += 1;
        }
        assert(wanted.take(i as int) =~= wanted);
        names
    }

    fn missing_tag_keys(&self, keys: &Vec<(Option<String>, String)>) -> (fresh: Vec<
        (Option<String>, String),
    >)
        ensures
            keys_of(fresh@) == self@.missing_tags(keys_of(keys@)),
    {
        let ghost wanted = keys_of(keys@);
        let mut fresh: Vec<(Option<String>, String)> = Vec::new();
        let mut i: usize = 0;
        assert(wanted.take(0) =~= Seq::<TagKey>::empty());
        assert(keys_of(fresh@) =~= self@.missing_tags(wanted.take(0)));
        while i < keys.len()
            invariant
                i <= keys.len(),
                wanted == keys_of(keys@),
                keys_of(fresh@) == self@.missing_tags(wanted.take(i as int)),
            decreases keys.len() - i,
        {
            let ghost before = wanted.take(i as int);
            let ghost now = wanted.take(i + 1);
            assert(now.drop_last() =~= before);
            assert(now.last() == key_of(keys@[i as int]));
            if self.tag_position(&keys[i].0, &keys[i].1).is_none() && !pairs_contain(
                &fresh,
                &keys[i].0,
                &keys[i].1,
            ) {
                fresh.push(copy_pair(&keys[i]));
                assert(keys_of(fresh@) =~= self@.missing_tags(before).push(key_of(keys@[i as int])));
            }
            i += 1;
        }
        assert(wanted.take(i as int) =~= wanted);
        fresh
    }

    fn insert_namespaces(&mut self, names: &Vec<String>)
        requires
            old(self)@.namespaces.len() + names.len() <= MAX_ROWS,
        ensures
            final(self)@ == old(self)@.insert_namespaces(texts(names@)),
    {
        let ghost start = self@.namespaces.len() as int;
        let mut i: usize = 0;
        assert(self@.namespaces =~= old(self)@.namespaces + new_namespaces(
            start,
            texts(names@).take(0),
        ));
        while i < names.len()
            invariant
                i <= names.len(),
                start == old(self)@.namespaces.len(),
                start + names.len() <= MAX_ROWS,
                self.namespaces.len() == start + i,
                self@.tags == old(self)@.tags,
                self@.namespaces == old(self)@.namespaces + new_namespaces(
                    start,
                    texts(names@).take(i as int),
                ),
            decreases names.len() - i,
        {
            let id = (self.namespaces.len() + 1) as i64;
            let row = Namespace { id, name: names[i].clone() };
            proof {
                lemma_namespace_views_push(self.namespaces@, row);
            }
            self.namespaces.push(row);
            i += 1;
            assert(self@.namespaces =~= old(self)@.namespaces + new_namespaces(
                start,
                texts(names@).take(i as int),
            ));
        }
        assert(texts(names@).take(i as int) =~= texts(names@));
    }

    fn insert_tags(&mut self, keys: &Vec<(Option<String>, String)>)
        requires
            namespaces_wf(old(self)@.namespaces),
            old(self)@.tags.len() + keys.len() <= MAX_ROWS,
            forall|i: int|
                0 <= i < keys.len() ==> ((#[trigger] keys_of(keys@)[i]).0 matches Some(n)
                    ==> old(self)@.has_namespace(n)),
        ensures
            final(self)@ == old(self)@.insert_tags(keys_of(keys@)),
    {
        let ghost start = self@.tags.len() as int;
        let ghost wanted = keys_of(keys@);
        let mut i: usize = 0;
        assert(self@.tags =~= old(self)@.tags + new_tags(
            old(self)@.namespaces,
            start,
            wanted.take(0),
        ));
        while i < keys.len()
            invariant
                i <= keys.len(),
                wanted == keys_of(keys@),
                start == old(self)@.tags.len(),
                start + keys.len() <= MAX_ROWS,
                self.tags.len() == start + i,
                namespaces_wf(self@.namespaces),
                self@.namespaces == old(self)@.namespaces,
                forall|j: int|
                    0 <= j < keys.len() ==> ((#[trigger] wanted[j]).0 matches Some(n)
                        ==> self@.has_namespace(n)),
                self@.tags == old(self)@.tags + new_tags(
                    old(self)@.namespaces,
                    start,
                    wanted.take(i as int),
                ),
            decreases keys.len() - i,
        {
            assert(wanted[i as int] == key_of(keys@[i as int]));
            let namespace = match &keys[i].0 {
                Some(n) => self.namespace_by_name(n),
                None => None,
            };
            let id = (self.tags.len() + 1) as i64;
            let row = Tag { id, namespace, name: keys[i].1.clone() };
            proof {
                lemma_tag_views_push(self.tags@, row);
            }
            self.tags.push(row);
            i += 1;
            assert(self@.tags =~= old(self)@.tags + new_tags(
                old(self)@.namespaces,
                start,
                wanted.take(i as int),
            ));
        }
        assert(wanted.take(i as int) =~= wanted);
    }

    /// Finds or creates a tag for every identity in `keys` and returns
    /// the tags of the batch: those that existed and those newly made.
    ///
    /// Missing namespaces are created first, then missing tags, each
    /// once however often the batch names it. Where the tables cannot
    /// take the new rows nothing is changed.
    pub fn add_all(&mut self, keys: Vec<(Option<String>, String)>) -> (result: RepoResult<Vec<Tag>>)
        requires
            old(self)@.wf(),
        ensures
            final(self)@.wf(),
            match result {
                Ok(tags) => {
                    &&& old(self)@.has_room_for(keys_of(keys@))
                    &&& final(self)@ == old(self)@.add_all(keys_of(keys@))
                    &&& tag_views(tags@) == final(self)@.tags_among(keys_of(keys@))
                },
                Err(e) => {
                    &&& !old(self)@.has_room_for(keys_of(keys@))
                    &&& e == RepoError::CapacityExceeded
                    &&& final(self)@ == old(self)@
                },
            },
    {
        let names = self.missing_namespace_names(&keys);
        let fresh = self.missing_tag_keys(&keys);
        if names.len() > MAX_ROWS - self.namespaces.len() || fresh.len() > MAX_ROWS
            - self.tags.len() {
            return Err(RepoError::CapacityExceeded);
        }
        proof {
            lemma_add_all(self@, keys_of(keys@));
        }
        self.insert_namespaces(&names);
        self.insert_tags(&fresh);
        Ok(self.tags_by_names(&keys))
    }

    /// Creates the tag with the given namespace and name, creating its
    /// namespace first unless that exists.
    ///
    /// Fails with `Conflict` where the tag exists, else with
    /// `CapacityExceeded` where a table cannot take a new row; nothing
    /// is changed then.
    pub fn create(&mut self, namespace: Option<String>, name: String) -> (result: RepoResult<Tag>)
        requires
            old(self)@.wf(),
        ensures
            final(self)@.wf(),
            match result {
                Ok(tag) => {
                    &&& !old(self)@.has_tag((optional_text(namespace), name@))
                    &&& old(self)@.has_room_for_one((optional_text(namespace), name@))
                    &&& final(self)@ == old(self)@.find_or_create((optional_text(namespace), name@))
                    &&& final(self)@.has_tag((optional_text(namespace), name@))
                    &&& tag@ == final(self)@.tag_with((optional_text(namespace), name@))
                },
                Err(e) => {
                    &&& final(self)@ == old(self)@
                    &&& e == if old(self)@.has_tag((optional_text(namespace), name@)) {
                        RepoError::Conflict
                    } else {
                        RepoError::CapacityExceeded
                    }
                    &&& old(self)@.has_tag((optional_text(namespace), name@))
                        || !old(self)@.has_room_for_one((optional_text(namespace), name@))
                },
            },
    {
        if self.tag_position(&namespace, &name).is_some() {
            return Err(RepoError::Conflict);
        }
        self.find_or_create(namespace, name)
    }

    /// Finds the tag with the given namespace and name, or creates it,
    /// creating its namespace first unless that exists.
    ///
    /// Where a table cannot take a new row nothing is changed.
    pub fn find_or_create(&mut self, namespace: Option<String>, name: String) -> (result: RepoResult<
        Tag,
    >)
        requires
            old(self)@.wf(),
        ensures
            final(self)@.wf(),
            match result {
                Ok(tag) => {
                    &&& old(self)@.has_room_for_one((optional_text(namespace), name@))
                    &&& final(self)@ == old(self)@.find_or_create((optional_text(namespace), name@))
                    &&& final(self)@.has_tag((optional_text(namespace), name@))
                    &&& tag@ == final(self)@.tag_with((optional_text(namespace), name@))
                },
                Err(e) => {
                    &&& !old(self)@.has_room_for_one((optional_text(namespace), name@))
                    &&& e == RepoError::CapacityExceeded
                    &&& final(self)@ == old(self)@
                },
            },
    {
        let ghost key = (optional_text(namespace), name@);
        let ghost c = self@;
        if let Some(tag) = self.tag_by_name(&namespace, &name) {
            return Ok(tag);
        }
        if self.tags.len() >= MAX_ROWS {
            return Err(RepoError::CapacityExceeded);
        }
        let mut names: Vec<String> = Vec::new();
        if let Some(n) = &namespace {
            if self.namespace_position(n).is_none() {
                if self.namespaces.len() >= MAX_ROWS {
                    return Err(RepoError::CapacityExceeded);
                }
                names.push(n.clone());
                assert(texts(names@) =~= seq![n@]);
            }
        }
        let mut keys: Vec<(Option<String>, String)> = Vec::new();
        keys.push((namespace, name));
        assert(keys_of(keys@) =~= seq![key]);
        proof {
            if names.len() == 0 {
                assert(texts(names@) =~= Seq::<Seq<char>>::empty());
                assert(c.insert_namespaces(texts(names@)).namespaces =~= c.namespaces);
            } else {
                assert(texts(names@).no_duplicates());
            }
            lemma_insert_namespaces(c, texts(names@));
            let mid = c.insert_namespaces(texts(names@));
            assert(seq![key].no_duplicates());
            if let Some(n) = key.0 {
                assert(mid.has_namespace(n) <==> c.has_namespace(n) || texts(names@).contains(n));
                assert(c.has_namespace(n) || texts(names@)[0] == n);
            }
            lemma_insert_tags(mid, seq![key]);
            lemma_row_with(
                mid.insert_tags(seq![key]).namespaces,
                mid.insert_tags(seq![key]).tags,
                mid.tags.len() as int,
            );
            assert(mid.insert_tags(seq![key]).tags[mid.tags.len() + 0int].key() == key);
        }
        self.insert_namespaces(&names);
        self.insert_tags(&keys);
        let at = self.tags.len() - 1;
        Ok(self.tags[at].clone())
    }
}


proof fn lemma_count_prefix(namespaces: Seq<NamespaceView>, rows: Seq<TagView>, key: TagKey, n: int)
    requires
        tags_wf(namespaces, rows),
        0 <= n <= rows.len(),
    ensures
        count_with(rows.take(n), key) == if has_key(rows.take(n), key) {
            1nat
        } else {
            0nat
        },
    decreases n,
{
    let pred = |t: TagView| t.key() == key;
    if n == 0 {
        reveal(Seq::filter);
        assert(rows.take(0).filter(pred) =~= Seq::<TagView>::empty());
    } else {
        lemma_count_prefix(namespaces, rows, key, n - 1);
        lemma_filter_step(rows, pred, n - 1);
        let before = rows.take(n - 1);
        let now = rows.take(n);
        if has_key(before, key) {
            let j = choose|j: int| 0 <= j < before.len() && (#[trigger] before[j]).key() == key;
            assert(now[j].key() == key);
            assert(rows[j].key() == key);
            assert(rows[n - 1].key() != key);
        } else if rows[n - 1].key() == key {
            assert(now[n - 1].key() == key);
        } else {
            if has_key(now, key) {
                let j = choose|j: int| 0 <= j < now.len() && (#[trigger] now[j]).key() == key;
                assert(before[j].key() == key);
            }
        }
    }
}

/// In a well-formed catalog an identity has one row or none.
pub proof fn lemma_one_row_per_key(c: CatalogView, key: TagKey)
    requires
        c.wf(),
    ensures
        c.rows_with(key) == if c.has_tag(key) {
            1nat
        } else {
            0nat
        },
{
    lemma_count_prefix(c.namespaces, c.tags, key, c.tags.len() as int);
    assert(c.tags.take(c.tags.len() as int) =~= c.tags);
}

/// Tag idempotence: finding or creating an identity a second time
/// changes nothing, so both calls yield the same tag and no namespace
/// or tag is duplicated.
pub proof fn lemma_find_or_create_twice(c: CatalogView, key: TagKey)
    requires
        c.wf(),
        c.has_room_for_one(key),
    ensures
        c.find_or_create(key).wf(),
        c.find_or_create(key).has_tag(key),
        c.find_or_create(key).find_or_create(key) == c.find_or_create(key),
        c.find_or_create(key).rows_with(key) == 1,
        key.0 matches Some(n) ==> c.find_or_create(key).has_namespace(n),
{
    let d = c.find_or_create(key);
    if !c.has_tag(key) {
        let names: Seq<Seq<char>> = match key.0 {
            Some(n) => if c.has_namespace(n) {
                Seq::empty()
            } else {
                seq![n]
            },
            None => Seq::empty(),
        };
        let mid = c.insert_namespaces(names);
        if names.len() == 0 {
            assert(mid.namespaces =~= c.namespaces);
        }
        lemma_insert_namespaces(c, names);
        if let Some(n) = key.0 {
            assert(mid.has_namespace(n) <==> c.has_namespace(n) || names.contains(n));
            assert(c.has_namespace(n) || names[0] == n);
        }
        assert(seq![key].no_duplicates());
        lemma_insert_tags(mid, seq![key]);
        assert(d.has_tag(key) <==> mid.has_tag(key) || seq![key].contains(key));
        assert(seq![key][0] == key);
    } else if let Some(n) = key.0 {
        let i = choose|i: int| 0 <= i < c.tags.len() && (#[trigger] c.tags[i]).key() == key;
        let row = c.tags[i].namespace->0;
        let j = choose|j: int| 0 <= j < c.namespaces.len() && c.namespaces[j] == row;
        assert(c.namespaces[j].name == n);
    }
    lemma_one_row_per_key(d, key);
}

/// A batch of one identity is the same as finding or creating it.
pub proof fn lemma_batch_of_one(c: CatalogView, key: TagKey)
    requires
        c.wf(),
    ensures
        c.add_all(seq![key]) == c.find_or_create(key),
        c.has_room_for(seq![key]) == c.has_room_for_one(key),
{
    let keys = seq![key];
    assert(keys.drop_last() =~= Seq::<TagKey>::empty());
    assert(keys.last() == key);
    let known_key = |k: TagKey| has_key(c.tags, k);
    let known_name = |n: Seq<char>| has_name(c.namespaces, n);
    assert(novel(keys.drop_last(), known_key) =~= Seq::<TagKey>::empty());
    assert(namespaces_of(keys.drop_last()) =~= Seq::<Seq<char>>::empty());
    match key.0 {
        Some(n) => {
            let names = namespaces_of(keys);
            assert(names =~= seq![n]);
            assert(names.drop_last() =~= Seq::<Seq<char>>::empty());
            assert(novel(names.drop_last(), known_name) =~= Seq::<Seq<char>>::empty());
            if c.has_namespace(n) {
                assert(c.missing_namespaces(keys) =~= Seq::<Seq<char>>::empty());
            } else {
                assert(c.missing_namespaces(keys) =~= seq![n]);
            }
        },
        None => {
            assert(namespaces_of(keys) =~= Seq::<Seq<char>>::empty());
            assert(c.missing_namespaces(keys) =~= Seq::<Seq<char>>::empty());
        },
    }
    if c.has_tag(key) {
        assert(c.missing_tags(keys) =~= Seq::<TagKey>::empty());
        let i = choose|i: int| 0 <= i < c.tags.len() && (#[trigger] c.tags[i]).key() == key;
        if let Some(n) = key.0 {
            let row = c.tags[i].namespace->0;
            let j = choose|j: int| 0 <= j < c.namespaces.len() && c.namespaces[j] == row;
            assert(c.namespaces[j].name == n);
        }
        assert(c.missing_namespaces(keys) =~= Seq::<Seq<char>>::empty());
        assert(c.add_all(keys).namespaces =~= c.namespaces);
        assert(c.add_all(keys).tags =~= c.tags);
    } else {
        assert(c.missing_tags(keys) =~= seq![key]);
        if c.missing_namespaces(keys).len() == 0 {
            assert(c.insert_namespaces(c.missing_namespaces(keys)).namespaces =~= c.namespaces);
        }
    }
}

/// Two batches that share an identity leave exactly one row for it,
/// whichever batch runs first.
pub proof fn lemma_add_all_twice_one_row(
    c: CatalogView,
    first: Seq<TagKey>,
    second: Seq<TagKey>,
    key: TagKey,
)
    requires
        c.wf(),
        c.has_room_for(first),
        c.add_all(first).has_room_for(second),
        first.contains(key),
        second.contains(key),
    ensures
        c.add_all(first).add_all(second).wf(),
        c.add_all(first).add_all(second).rows_with(key) == 1,
        c.add_all(first).add_all(second).tag_with(key) == c.add_all(first).tag_with(key),
{
    let d = c.add_all(first);
    lemma_add_all(c, first);
    lemma_add_all(d, second);
    let i = choose|i: int| 0 <= i < first.len() && first[i] == key;
    assert(d.has_tag(first[i]));
    let j = choose|j: int| 0 <= j < second.len() && second[j] == key;
    assert(d.add_all(second).has_tag(second[j]));
    lemma_one_row_per_key(d.add_all(second), key);
}


impl CatalogView {
    /// The catalog after each identity of `keys` has been found or
    /// created on its own, in order.
    pub open spec fn find_or_create_each(self, keys: Seq<TagKey>) -> CatalogView
        decreases keys.len(),
    {
        if keys.len() == 0 {
            self
        } else {
            self.find_or_create_each(keys.drop_last()).find_or_create(keys.last())
        }
    }
}

proof fn lemma_add_one_more(c: CatalogView, keys: Seq<TagKey>, key: TagKey)
    requires
        c.wf(),
        c.has_room_for(keys.push(key)),
    ensures
        c.has_room_for(keys),
        c.add_all(keys).has_room_for_one(key),
        c.add_all(keys.push(key)) == c.add_all(keys).find_or_create(key),
{
    let more = keys.push(key);
    assert(more.drop_last() =~= keys);
    assert(more.last() == key);
    let known_name = |n: Seq<char>| has_name(c.namespaces, n);
    let known_key = |k: TagKey| has_key(c.tags, k);
    let names = c.missing_namespaces(keys);
    let fresh = c.missing_tags(keys);
    let more_names = c.missing_namespaces(more);
    let more_fresh = c.missing_tags(more);
    lemma_novel(namespaces_of(keys), known_name);
    lemma_novel(keys, known_key);
    lemma_namespaces_of(keys);
    if let Some(n) = key.0 {
        assert(namespaces_of(more) == namespaces_of(keys).push(n));
        assert(namespaces_of(more).drop_last() =~= namespaces_of(keys));
    } else {
        assert(namespaces_of(more) == namespaces_of(keys));
    }
    lemma_add_all(c, keys);
    lemma_insert_namespaces(c, names);
    let mid = c.insert_namespaces(names);
    let d = c.add_all(keys);
    assert(d.namespaces == mid.namespaces);
    assert forall|i: int| 0 <= i < fresh.len() implies !mid.has_tag(#[trigger] fresh[i]) by {
        assert(!known_key(fresh[i]));
    }
    lemma_insert_tags(mid, fresh);
    if d.has_tag(key) {
        assert(c.has_tag(key) || keys.contains(key));
        if keys.contains(key) {
            let j = choose|j: int| 0 <= j < keys.len() && keys[j] == key;
            assert(known_key(keys[j]) || fresh.contains(keys[j]));
        }
        assert(more_fresh == fresh);
        if let Some(n) = key.0 {
            let i = choose|i: int| 0 <= i < d.tags.len() && (#[trigger] d.tags[i]).key() == key;
            let row = d.tags[i].namespace->0;
            let j = choose|j: int| 0 <= j < d.namespaces.len() && d.namespaces[j] == row;
            assert(d.namespaces[j].name == n);
            assert(mid.has_namespace(n));
            assert(mid.has_namespace(n) <==> c.has_namespace(n) || names.contains(n));
            assert(more_names == names);
        }
    } else {
        assert(!known_key(key));
        if fresh.contains(key) {
            let j = choose|j: int| 0 <= j < fresh.len() && fresh[j] == key;
            assert(keys.contains(fresh[j]));
            let m = choose|m: int| 0 <= m < keys.len() && keys[m] == key;
            assert(d.has_tag(keys[m]));
        }
        assert(more_fresh == fresh.push(key));
        let grows = match key.0 {
            Some(n) => !mid.has_namespace(n),
            None => false,
        };
        if let Some(n) = key.0 {
            assert(mid.has_namespace(n) <==> c.has_namespace(n) || names.contains(n));
        }
        if grows {
            let n = key.0->0;
            assert(more_names == names.push(n));
            let wide = c.insert_namespaces(more_names);
            assert(wide.namespaces =~= d.insert_namespaces(seq![n]).namespaces);
            lemma_novel(namespaces_of(more), known_name);
            lemma_insert_namespaces(c, more_names);
            assert(seq![n].no_duplicates());
            lemma_insert_namespaces(mid, seq![n]);
            assert forall|i: int| 0 <= i < fresh.len() implies (match (#[trigger] fresh[i]).0 {
                Some(m) => wide.namespace_named(m) == mid.namespace_named(m),
                None => true,
            }) by {
                if let Some(m) = fresh[i].0 {
                    assert(mid.has_namespace(m));
                    assert(mid.insert_namespaces(seq![n]).namespace_named(m) == mid.namespace_named(
                        m,
                    ));
                    assert(wide.namespaces == mid.insert_namespaces(seq![n]).namespaces);
                }
            }
            assert(wide.insert_tags(more_fresh).tags =~= d.insert_namespaces(seq![n]).insert_tags(
                seq![key],
            ).tags);
        } else {
            assert(more_names == names);
            assert(mid.insert_tags(more_fresh).tags =~= d.insert_tags(seq![key]).tags);
        }
    }
}

/// A batch is the same as finding or creating each of its identities in
/// turn: both create the same rows with the same ids.
pub proof fn lemma_batch_is_each_in_turn(c: CatalogView, keys: Seq<TagKey>)
    requires
        c.wf(),
        c.has_room_for(keys),
    ensures
        c.add_all(keys) == c.find_or_create_each(keys),
    decreases keys.len(),
{
    if keys.len() == 0 {
        assert(c.missing_namespaces(keys) =~= Seq::<Seq<char>>::empty());
        assert(c.missing_tags(keys) =~= Seq::<TagKey>::empty());
        assert(c.add_all(keys).namespaces =~= c.namespaces);
        assert(c.add_all(keys).tags =~= c.tags);
    } else {
        let front = keys.drop_last();
        assert(front.push(keys.last()) =~= keys);
        lemma_add_one_more(c, front, keys.last());
        lemma_batch_is_each_in_turn(c, front);
    }
}

} // verus!
