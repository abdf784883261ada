//! Sorting of query results by a list of sort keys, the first key
//! deciding first.

use vstd::prelude::*;
use vstd::seq_lib::{to_multiset_build, to_multiset_insert};
use crate::file::{file_views, File, FileView};
use crate::text::{chars_of, optional_text};

verus! {

/// The direction of a sort key.
#[derive(Clone, Copy, Debug, PartialEq, Eq, Structural)]
pub enum SortDirection {
    Ascending,
    Descending,
}

/// What files are sorted by.
#[derive(Clone, Copy, Debug, PartialEq, Eq, Structural)]
pub enum SortKey {
    /// The display name; files without a name come first.
    FileName(SortDirection),
    FileImportedTime(SortDirection),
    FileCreatedTime(SortDirection),
    FileChangeTime(SortDirection),
}

/// How two numbers are ordered: -1 where the first is smaller, 1 where
/// it is larger, 0 where they are equal.
pub open spec fn number_order(a: int, b: int) -> int {
    if a < b {
        -1
    } else if a > b {
        1
    } else {
        0
    }
}

/// How two texts are ordered, character by character; a text comes
/// before every text that it is a proper prefix of.
pub open spec fn text_order(a: Seq<char>, b: Seq<char>) -> int
    decreases a.len(),
{
    if a.len() == 0 {
        if b.len() == 0 {
            0
        } else {
            -1
        }
    } else if b.len() == 0 {
        1
    } else if a[0] != b[0] {
        number_order(a[0] as int, b[0] as int)
    } else {
        text_order(a.drop_first(), b.drop_first())
    }
}

/// How two optional names are ordered: no name comes before any name.
pub open spec fn name_order(a: Option<Seq<char>>, b: Option<Seq<char>>) -> int {
    match (a, b) {
        (None, None) => 0,
        (None, Some(_)) => -1,
        (Some(_), None) => 1,
        (Some(x), Some(y)) => text_order(x, y),
    }
}

/// An order as the direction has it: reversed where descending.
pub open spec fn directed(order: int, direction: SortDirection) -> int {
    match direction {
        SortDirection::Ascending => order,
        SortDirection::Descending => -order,
    }
}

/// How two files are ordered by one key.
pub open spec fn key_order(a: FileView, b: FileView, key: SortKey) -> int {
    match key {
        SortKey::FileName(d) => directed(name_order(a.name, b.name), d),
        SortKey::FileImportedTime(d) => directed(number_order(a.import_time, b.import_time), d),
        SortKey::FileCreatedTime(d) => directed(number_order(a.creation_time, b.creation_time), d),
        SortKey::FileChangeTime(d) => directed(number_order(a.change_time, b.change_time), d),
    }
}

/// How two files are ordered by a list of keys: by the first key that
/// tells them apart.
pub open spec fn file_order(a: FileView, b: FileView, keys: Seq<SortKey>) -> int
    decreases keys.len(),
{
    if keys.len() == 0 {
        0
    } else if key_order(a, b, keys[0]) != 0 {
        key_order(a, b, keys[0])
    } else {
        file_order(a, b, keys.drop_first())
    }
}

/// Whether no file of the list comes after a later one.
pub open spec fn sorted_by(files: Seq<FileView>, keys: Seq<SortKey>) -> bool {
    forall|i: int, j: int|
        0 <= i < j < files.len() ==> file_order(#[trigger] files[i], #[trigger] files[j], keys) <= 0
}

/// Where a file is put into a sorted list: behind the last file that
/// does not come after it.
pub open spec fn insertion_point(sorted: Seq<FileView>, file: FileView, keys: Seq<SortKey>) -> int
    decreases sorted.len(),
{
    if sorted.len() == 0 || file_order(sorted[0], file, keys) > 0 {
        0
    } else {
        1 + insertion_point(sorted.drop_first(), file, keys)
    }
}

/// The files in the order that the keys give: each file in turn is put
/// into the sorted list of the files before it, so files that no key
/// tells apart keep their order.
pub open spec fn sorted_files(files: Seq<FileView>, keys: Seq<SortKey>) -> Seq<FileView>
    decreases files.len(),
{
    if files.len() == 0 {
        files
    } else {
        let front = sorted_files(files.drop_last(), keys);
        front.insert(insertion_point(front, files.last(), keys), files.last())
    }
}

proof fn lemma_text_order(a: Seq<char>, b: Seq<char>, c: Seq<char>)
    ensures
        -1 <= text_order(a, b) <= 1,
        text_order(a, b) == -text_order(b, a),
        text_order(a, b) <= 0 && text_order(b, c) <= 0 ==> text_order(a, c) <= 0,
        text_order(a, b) <= 0 && text_order(b, c) <= 0 && text_order(a, c) == 0 ==> text_order(a, b)
            == 0 && text_order(b, c) == 0,
    decreases a.len() + b.len() + c.len(),
{
    if a.len() > 0 && b.len() > 0 {
        if c.len() > 0 {
            lemma_text_order(a.drop_first(), b.drop_first(), c.drop_first());
        } else {
            lemma_text_order(a.drop_first(), b.drop_first(), c);
        }
    } else if b.len() > 0 && c.len() > 0 {
        lemma_text_order(a, b.drop_first(), c.drop_first());
    }
}

proof fn lemma_key_order(a: FileView, b: FileView, c: FileView, key: SortKey)
    ensures
        -1 <= key_order(a, b, key) <= 1,
        key_order(a, b, key) == -key_order(b, a, key),
        key_order(a, b, key) <= 0 && key_order(b, c, key) <= 0 ==> key_order(a, c, key) <= 0,
        key_order(a, b, key) <= 0 && key_order(b, c, key) <= 0 && key_order(a, c, key) == 0
            ==> key_order(a, b, key) == 0 && key_order(b, c, key) == 0,
{
    if let SortKey::FileName(d) = key {
        match (a.name, b.name, c.name) {
            (Some(x), Some(y), Some(z)) => {
                lemma_text_order(x, y, z);
                lemma_text_order(z, y, x);
                lemma_text_order(x, z, z);
                lemma_text_order(y, z, z);
            },
            (Some(x), Some(y), None) => {
                lemma_text_order(x, y, y);
            },
            (None, Some(y), Some(z)) => {
                lemma_text_order(y, z, z);
            },
            (Some(x), None, Some(z)) => {
                lemma_text_order(x, z, z);
            },
            _ => {},
        }
    }
}

/// The order of files by a list of keys is a total preorder: it is
/// antisymmetric in sign and transitive.
pub proof fn lemma_file_order(a: FileView, b: FileView, c: FileView, keys: Seq<SortKey>)
    ensures
        file_order(a, b, keys) == -file_order(b, a, keys),
        file_order(a, b, keys) <= 0 && file_order(b, c, keys) <= 0 ==> file_order(a, c, keys) <= 0,
    decreases keys.len(),
{
    if keys.len() > 0 {
        lemma_key_order(a, b, c, keys[0]);
        lemma_file_order(a, b, c, keys.drop_first());
    }
}

fn number_order_of(a: i64, b: i64) -> (order: i8)
    ensures
        order == number_order(a as int, b as int),
{
    if a < b {
        -1
    } else if a > b {
        1
    } else {
        0
    }
}

fn text_order_of(a: &String, b: &String) -> (order: i8)
    ensures
        order == text_order(a@, b@),
{
    let x = chars_of(a.as_str());
    let y = chars_of(b.as_str());
    let mut i: usize = 0;
    assert(x@.skip(0) =~= x@);
    assert(y@.skip(0) =~= y@);
    while i < x.len() && i < y.len()
        invariant
            i <= x.len(),
            i <= y.len(),
            x@ == a@,
            y@ == b@,
            text_order(a@, b@) == text_order(x@.skip(i as int), y@.skip(i as int)),
        decreases x.len() - i,
    {
        let ghost p = x@.skip(i as int);
        let ghost q = y@.skip(i as int);
        assert(p[0] == x@[i as int]);
        assert(q[0] == y@[i as int]);
        assert(p.drop_first() =~= x@.skip(i + 1));
        assert(q.drop_first() =~= y@.skip(i + 1));
        if x[i] != y[i] {
            return if x[i] < y[i] {
                -1
            } else {
                1
            };
        }
        i += 1;
    }
    if i < y.len() {
        -1
    } else if i < x.len() {
        1
    } else {
        0
    }
}

fn name_order_of(a: &Option<String>, b: &Option<String>) -> (order: i8)
    ensures
        order == name_order(optional_text(*a), optional_text(*b)),
{
    match (a, b) {
        (None, None) => 0,
        (None, Some(_)) => -1,
        (Some(_), None) => 1,
        (Some(x), Some(y)) => text_order_of(x, y),
    }
}

fn directed_of(order: i8, direction: SortDirection) -> (result: i8)
    requires
        -1 <= order <= 1,
    ensures
        result == directed(order as int, direction),
{
    match direction {
        SortDirection::Ascending => order,
        SortDirection::Descending => -order,
    }
}

fn key_order_of(a: &File, b: &File, key: SortKey) -> (order: i8)
    ensures
        order == key_order(a@, b@, key),
{
    proof {
        lemma_key_order(a@, b@, b@, key);
        if let (Some(x), Some(y)) = (a@.name, b@.name) {
            lemma_text_order(x, y, y);
        }
    }
    match key {
        SortKey::FileName(d) => directed_of(name_order_of(&a.name, &b.name), d),
        SortKey::FileImportedTime(d) => directed_of(
            number_order_of(a.import_time, b.import_time),
            d,
        ),
        SortKey::FileCreatedTime(d) => directed_of(
            number_order_of(a.creation_time, b.creation_time),
            d,
        ),
        SortKey::FileChangeTime(d) => directed_of(
            number_order_of(a.change_time, b.change_time),
            d,
        ),
    }
}

/// How two files are ordered by a list of keys: -1 where the first
/// comes first, 1 where the second does, 0 where no key tells them
/// apart.
pub fn file_order_of(a: &File, b: &File, keys: &Vec<SortKey>) -> (order: i8)
    ensures
        order == file_order(a@, b@, keys@),
{
    let mut i: usize = 0;
    assert(keys@.skip(0) =~= keys@);
    while i < keys.len()
        invariant
            i <= keys.len(),
            file_order(a@, b@, keys@) == file_order(a@, b@, keys@.skip(i as int)),
        decreases keys.len() - i,
    {
        assert(keys@.skip(i as int)[0] == keys@[i as int]);
        assert(keys@.skip(i as int).drop_first() =~= keys@.skip(i + 1));
        let order = key_order_of(a, b, keys[i]);
        if order != 0 {
            return order;
        }
        i += 1;
    }
    0
}

proof fn lemma_insertion_point(sorted: Seq<FileView>, file: FileView, keys: Seq<SortKey>, at: int)
    requires
        0 <= at <= sorted.len(),
        forall|k: int| 0 <= k < at ==> file_order(#[trigger] sorted[k], file, keys) <= 0,
        at == sorted.len() || file_order(sorted[at], file, keys) > 0,
    ensures
        insertion_point(sorted, file, keys) == at,
    decreases at,
{
    if at > 0 {
        let rest = sorted.drop_first();
        assert forall|k: int| 0 <= k < at - 1 implies file_order(
            #[trigger] rest[k],
            file,
            keys,
        ) <= 0 by {
            assert(rest[k] == sorted[k + 1]);
        }
        assert(file_order(sorted[0], file, keys) <= 0);
        lemma_insertion_point(rest, file, keys, at - 1);
    }
}

proof fn lemma_insertion_point_shape(sorted: Seq<FileView>, file: FileView, keys: Seq<SortKey>)
    ensures
        0 <= insertion_point(sorted, file, keys) <= sorted.len(),
        forall|k: int|
            0 <= k < insertion_point(sorted, file, keys) ==> file_order(
                #[trigger] sorted[k],
                file,
                keys,
            ) <= 0,
        insertion_point(sorted, file, keys) == sorted.len() || file_order(
            sorted[insertion_point(sorted, file, keys)],
            file,
            keys,
        ) > 0,
    decreases sorted.len(),
{
    if !(sorted.len() == 0 || file_order(sorted[0], file, keys) > 0) {
        let rest = sorted.drop_first();
        lemma_insertion_point_shape(rest, file, keys);
        let at = insertion_point(rest, file, keys);
        assert forall|k: int| 0 <= k < at + 1 implies file_order(
            #[trigger] sorted[k],
            file,
            keys,
        ) <= 0 by {
            if k > 0 {
                assert(sorted[k] == rest[k - 1]);
            }
        }
        if at < rest.len() {
            assert(sorted[at + 1] == rest[at]);
        }
    }
}

proof fn lemma_insert_keeps_sorted(before: Seq<FileView>, file: FileView, keys: Seq<SortKey>)
    requires
        sorted_by(before, keys),
    ensures
        sorted_by(before.insert(insertion_point(before, file, keys), file), keys),
{
    lemma_insertion_point_shape(before, file, keys);
    let at = insertion_point(before, file, keys);
    let after = before.insert(at, file);
    assert forall|p: int, q: int| 0 <= p < q < after.len() implies file_order(
        #[trigger] after[p],
        #[trigger] after[q],
        keys,
    ) <= 0 by {
        if q < at {
            assert(after[p] == before[p] && after[q] == before[q]);
        } else if q == at {
            assert(after[p] == before[p]);
        } else if p == at {
            assert(after[q] == before[q - 1]);
            lemma_file_order(before[at], file, file, keys);
            lemma_file_order(file, before[at], before[q - 1], keys);
            if q - 1 > at {
                assert(file_order(before[at], before[q - 1], keys) <= 0);
            } else {
                lemma_file_order(before[at], before[at], before[at], keys);
            }
        } else if p < at {
            assert(after[p] == before[p] && after[q] == before[q - 1]);
        } else {
            assert(after[p] == before[p - 1] && after[q] == before[q - 1]);
        }
    }
}

/// Sorting rearranges and orders: the sorted list holds the same files,
/// each as often as before, and none comes after a later one.
pub proof fn lemma_sorted_files(files: Seq<FileView>, keys: Seq<SortKey>)
    ensures
        sorted_files(files, keys).len() == files.len(),
        sorted_files(files, keys).to_multiset() == files.to_multiset(),
        sorted_by(sorted_files(files, keys), keys),
    decreases files.len(),
{
    if files.len() > 0 {
        let rest = files.drop_last();
        let front = sorted_files(rest, keys);
        lemma_sorted_files(rest, keys);
        lemma_insertion_point_shape(front, files.last(), keys);
        lemma_insert_keeps_sorted(front, files.last(), keys);
        to_multiset_insert(front, insertion_point(front, files.last(), keys), files.last());
        to_multiset_build(rest, files.last());
        assert(rest.push(files.last()) =~= files);
    }
}

/// The files in the order that the keys give; files that no key tells
/// apart keep their order.
pub fn sort_files(files: Vec<File>, keys: &Vec<SortKey>) -> (sorted: Vec<File>)
    ensures
        file_views(sorted@) == sorted_files(file_views(files@), keys@),
{
    let mut sorted: Vec<File> = Vec::new();
    let mut i: usize = 0;
    assert(file_views(files@).take(0) =~= file_views(sorted@));
    while i < files.len()
        invariant
            i <= files.len(),
            sorted.len() == i,
            file_views(sorted@) == sorted_files(file_views(files@).take(i as int), keys@),
        decreases files.len() - i,
    {
        let file = files[i].clone();
        let mut at: usize = 0;
        while at < sorted.len() && file_order_of(&sorted[at], &file, keys) <= 0
            invariant
                at <= sorted.len(),
                forall|k: int|
                    0 <= k < at ==> file_order(#[trigger] file_views(sorted@)[k], file@, keys@) <= 0,
            decreases sorted.len() - at,
        {
            at += 1;
        }
        proof {
            let before = file_views(sorted@);
            lemma_insertion_point(before, file@, keys@, at as int);
            assert(file_views(sorted@.insert(at as int, file)) =~= before.insert(at as int, file@));
            let now = file_views(files@).take(i + 1);
            assert(now.drop_last() =~= file_views(files@).take(i as int));
            assert(now.last() == file@);
        }
        sorted.insert(at, file);
        i += 1;
    }
    assert(file_views(files@).take(i as int) =~= file_views(files@));
    sorted
}

} // verus!
