//! The buffer cache: a short-lived, key-addressed cache of byte payloads
//! on their way to a presentation layer. One-shot entries are consumed
//! by their first read; persistent entries are swept once they are older
//! than a time to live.

use vstd::prelude::*;
use crate::seqs::{lemma_filter_members, lemma_filter_step};
use crate::storage::copy_bytes;

verus! {

/// How long an entry lives.
#[derive(Clone, Copy, Debug, PartialEq, Eq, Structural)]
pub enum BufferMode {
    /// Removed by the first successful read.
    OneShot,
    /// Kept until a sweep finds it older than the time to live.
    Persistent,
}

/// A payload with its media type.
#[derive(Debug)]
pub struct OnceBuffer {
    pub mime: String,
    pub buf: Vec<u8>,
}

impl OnceBuffer {
    /// A payload of the given media type.
    pub fn new(mime: String, buf: Vec<u8>) -> (buffer: Self)
        ensures
            buffer.mime == mime,
            buffer.buf == buf,
    {
        Self { mime, buf }
    }
}

struct BufferEntry {
    key: String,
    buffer: OnceBuffer,
    created: i64,
    mode: BufferMode,
}

/// What the cache holds under one key.
pub struct EntryView {
    pub mime: Seq<char>,
    pub bytes: Seq<u8>,
    pub created: int,
    pub mode: BufferMode,
}

/// A cache row: a key and what is held under it.
pub type Row = (Seq<char>, EntryView);

impl View for BufferEntry {
    type V = Row;

    closed spec fn view(&self) -> Row {
        (
            self.key@,
            EntryView {
                mime: self.buffer.mime@,
                bytes: self.buffer.buf@,
                created: self.created as int,
                mode: self.mode,
            },
        )
    }
}

/// Whether an entry has outlived the time to live `ttl` at the time
/// `now`: it is persistent and was created more than `ttl` before `now`.
pub open spec fn expired(entry: EntryView, now: int, ttl: int) -> bool {
    entry.mode == BufferMode::Persistent && now - entry.created > ttl
}

/// How long a persistent entry stays retrievable, in milliseconds.
pub const MAX_BUFFER_LIFETIME: i64 = 30_000;

/// The persistent entry that a payload fetched at the time `now` is
/// kept as.
pub open spec fn kept(mime: Seq<char>, bytes: Seq<u8>, now: int) -> EntryView {
    EntryView { mime, bytes, created: now, mode: BufferMode::Persistent }
}

/// The cache after `entry` has been put under `key`.
pub open spec fn put_model(cache: Map<Seq<char>, EntryView>, key: Seq<char>, entry: EntryView) -> Map<
    Seq<char>,
    EntryView,
> {
    cache.insert(key, entry)
}

/// What a read of `key` returns.
pub open spec fn read_model(cache: Map<Seq<char>, EntryView>, key: Seq<char>) -> Option<EntryView> {
    if cache.dom().contains(key) {
        Some(cache[key])
    } else {
        None
    }
}

/// The cache after a read of `key`: a one-shot entry is gone, anything
/// else is as before.
pub open spec fn after_read(cache: Map<Seq<char>, EntryView>, key: Seq<char>) -> Map<
    Seq<char>,
    EntryView,
> {
    if cache.dom().contains(key) && cache[key].mode == BufferMode::OneShot {
        cache.remove(key)
    } else {
        cache
    }
}

/// The cache after a sweep at the time `now`: the entries that have not
/// outlived `ttl`.
pub open spec fn sweep_model(cache: Map<Seq<char>, EntryView>, now: int, ttl: int) -> Map<
    Seq<char>,
    EntryView,
> {
    Map::new(|k: Seq<char>| cache.dom().contains(k) && !expired(cache[k], now, ttl), |k: Seq<char>| cache[k])
}

/// One-shot entries are read once: the first read returns the entry,
/// the second finds nothing.
pub proof fn lemma_one_shot_is_read_once(cache: Map<Seq<char>, EntryView>, key: Seq<char>)
    requires
        cache.dom().contains(key),
        cache[key].mode == BufferMode::OneShot,
    ensures
        read_model(cache, key) == Some(cache[key]),
        read_model(after_read(cache, key), key) is None,
{
}

/// Persistent entries survive reads: a read leaves the cache as it was,
/// so every later read returns the same entry.
pub proof fn lemma_persistent_survives_reads(cache: Map<Seq<char>, EntryView>, key: Seq<char>)
    requires
        cache.dom().contains(key),
        cache[key].mode == BufferMode::Persistent,
    ensures
        after_read(cache, key) == cache,
        read_model(after_read(cache, key), key) == Some(cache[key]),
{
}

/// A sweep removes exactly the persistent entries that are older than
/// the time to live: one-shot entries and younger persistent entries
/// stay as they are.
pub proof fn lemma_sweep_removes_the_expired(
    cache: Map<Seq<char>, EntryView>,
    key: Seq<char>,
    now: int,
    ttl: int,
)
    requires
        cache.dom().contains(key),
    ensures
        cache[key].mode == BufferMode::OneShot ==> read_model(sweep_model(cache, now, ttl), key)
            == Some(cache[key]),
        cache[key].mode == BufferMode::Persistent && now - cache[key].created <= ttl
            ==> read_model(sweep_model(cache, now, ttl), key) == Some(cache[key]),
        cache[key].mode == BufferMode::Persistent && now - cache[key].created > ttl ==> read_model(
            sweep_model(cache, now, ttl),
            key,
        ) is None,
{
}

/// Whether no key occurs twice among `rows`.
pub open spec fn distinct_keys(rows: Seq<Row>) -> bool {
    forall|i: int, j: int| 0 <= i < j < rows.len() ==> (#[trigger] rows[i]).0 != (#[trigger] rows[j]).0
}

/// Whether `key` occurs among `rows`.
pub open spec fn has_row(rows: Seq<Row>, key: Seq<char>) -> bool {
    exists|i: int| 0 <= i < rows.len() && (#[trigger] rows[i]).0 == key
}

/// The map that a list of rows stands for.
pub open spec fn map_of(rows: Seq<Row>) -> Map<Seq<char>, EntryView> {
    Map::new(
        |k: Seq<char>| has_row(rows, k),
        |k: Seq<char>| rows[choose|i: int| 0 <= i < rows.len() && (#[trigger] rows[i]).0 == k].1,
    )
}

proof fn lemma_map_of(rows: Seq<Row>, i: int)
    requires
        distinct_keys(rows),
        0 <= i < rows.len(),
    ensures
        map_of(rows).dom().contains(rows[i].0),
        map_of(rows)[rows[i].0] == rows[i].1,
{
    let k = rows[i].0;
    let j = choose|j: int| 0 <= j < rows.len() && (#[trigger] rows[j]).0 == k;
    assert(j == i);
}

proof fn lemma_map_of_push(rows: Seq<Row>, row: Row)
    requires
        distinct_keys(rows),
        !has_row(rows, row.0),
    ensures
        distinct_keys(rows.push(row)),
        map_of(rows.push(row)) == map_of(rows).insert(row.0, row.1),
{
    let after = rows.push(row);
    assert forall|k: Seq<char>| #[trigger] map_of(after).dom().contains(k) <==> map_of(rows).insert(row.0, row.1).dom().contains(k) by {
        if has_row(after, k) {
            let i = choose|i: int| 0 <= i < after.len() && (#[trigger] after[i]).0 == k;
            if i < rows.len() {
                assert(rows[i].0 == k);
            }
        }
        if has_row(rows, k) {
            let i = choose|i: int| 0 <= i < rows.len() && (#[trigger] rows[i]).0 == k;
            assert(after[i].0 == k);
        }
        if k == row.0 {
            assert(after[rows.len() as int].0 == k);
        }
    }
    assert forall|k: Seq<char>| #[trigger] map_of(after).dom().contains(k) implies map_of(after)[k] == map_of(rows).insert(row.0, row.1)[k] by {
        let i = choose|i: int| 0 <= i < after.len() && (#[trigger] after[i]).0 == k;
        lemma_map_of(after, i);
        if i < rows.len() {
            assert(after[i] == rows[i]);
            lemma_map_of(rows, i);
        }
    }
    assert(map_of(after) =~= map_of(rows).insert(row.0, row.1));
}

proof fn lemma_map_of_update(rows: Seq<Row>, at: int, row: Row)
    requires
        distinct_keys(rows),
        0 <= at < rows.len(),
        rows[at].0 == row.0,
    ensures
        distinct_keys(rows.update(at, row)),
        map_of(rows.update(at, row)) == map_of(rows).insert(row.0, row.1),
{
    let after = rows.update(at, row);
    assert forall|i: int| 0 <= i < rows.len() implies (#[trigger] after[i]).0 == rows[i].0 by {}
    assert forall|i: int, j: int| 0 <= i < j < after.len() implies (#[trigger] after[i]).0 != (#[trigger] after[j]).0 by {
        assert(after[i].0 == rows[i].0);
        assert(after[j].0 == rows[j].0);
    }
    assert forall|k: Seq<char>| #[trigger] map_of(after).dom().contains(k) <==> map_of(rows).insert(row.0, row.1).dom().contains(k) by {
        if has_row(after, k) {
            let i = choose|i: int| 0 <= i < after.len() && (#[trigger] after[i]).0 == k;
            assert(rows[i].0 == k);
        }
        if has_row(rows, k) {
            let i = choose|i: int| 0 <= i < rows.len() && (#[trigger] rows[i]).0 == k;
            assert(after[i].0 == k);
        }
        if k == row.0 {
            assert(after[at].0 == k);
        }
    }
    assert forall|k: Seq<char>| #[trigger] map_of(after).dom().contains(k) implies map_of(after)[k] == map_of(rows).insert(row.0, row.1)[k] by {
        let i = choose|i: int| 0 <= i < after.len() && (#[trigger] after[i]).0 == k;
        lemma_map_of(after, i);
        if i != at {
            assert(after[i] == rows[i]);
            lemma_map_of(rows, i);
        }
    }
    assert(map_of(after) =~= map_of(rows).insert(row.0, row.1));
}

proof fn lemma_map_of_remove(rows: Seq<Row>, at: int)
    requires
        distinct_keys(rows),
        0 <= at < rows.len(),
    ensures
        distinct_keys(rows.remove(at)),
        map_of(rows.remove(at)) == map_of(rows).remove(rows[at].0),
{
    let after = rows.remove(at);
    assert forall|i: int| 0 <= i < after.len() implies #[trigger] after[i] == rows[if i < at {
        i
    } else {
        i + 1
    }] by {}
    assert forall|i: int, j: int| 0 <= i < j < after.len() implies (#[trigger] after[i]).0 != (#[trigger] after[j]).0 by {
        let a = if i < at { i } else { i + 1 };
        let b = if j < at { j } else { j + 1 };
        assert(after[i] == rows[a]);
        assert(after[j] == rows[b]);
    }
    let target = map_of(rows).remove(rows[at].0);
    assert forall|k: Seq<char>| #[trigger] map_of(after).dom().contains(k) <==> target.dom().contains(k) by {
        if has_row(after, k) {
            let i = choose|i: int| 0 <= i < after.len() && (#[trigger] after[i]).0 == k;
            let a = if i < at { i } else { i + 1 };
            assert(after[i] == rows[a]);
            assert(rows[a].0 == k);
            assert(rows[at].0 != rows[a].0);
        }
        if has_row(rows, k) && k != rows[at].0 {
            let a = choose|a: int| 0 <= a < rows.len() && (#[trigger] rows[a]).0 == k;
            let i = if a < at { a } else { a - 1 };
            assert(after[i] == rows[a]);
            assert(after[i].0 == k);
        }
    }
    assert forall|k: Seq<char>| #[trigger] map_of(after).dom().contains(k) implies map_of(after)[k] == target[k] by {
        let i = choose|i: int| 0 <= i < after.len() && (#[trigger] after[i]).0 == k;
        let a = if i < at { i } else { i + 1 };
        assert(after[i] == rows[a]);
        lemma_map_of(after, i);
        lemma_map_of(rows, a);
    }
    assert(map_of(after) =~= target);
}

/// The buffer cache.
pub struct BufferState {
    entries: Vec<BufferEntry>,
}

spec fn rows_of(entries: Seq<BufferEntry>) -> Seq<Row> {
    entries.map_values(|e: BufferEntry| e@)
}

impl View for BufferState {
    type V = Map<Seq<char>, EntryView>;

    closed spec fn view(&self) -> Map<Seq<char>, EntryView> {
        map_of(rows_of(self.entries@))
    }
}

impl BufferState {
    /// Removes every persistent entry that, at the time `now`, has
    /// outlived the buffer lifetime.
    pub fn clear_expired(&mut self, now: i64)
        requires
            old(self).wf(),
        ensures
            final(self).wf(),
            final(self)@ == sweep_model(old(self)@, now as int, MAX_BUFFER_LIFETIME as int),
    {
        self.sweep(now, MAX_BUFFER_LIFETIME);
    }
}

fn is_expired(mode: BufferMode, created: i64, now: i64, ttl: i64) -> (gone: bool)
    ensures
        gone == (mode == BufferMode::Persistent && now - created > ttl),
{
    match mode {
        BufferMode::OneShot => false,
        BufferMode::Persistent => (now as i128) - (created as i128) > (ttl as i128),
    }
}

impl BufferState {
    /// The invariant of the cache: no key is held twice.
    pub closed spec fn wf(&self) -> bool {
        distinct_keys(rows_of(self.entries@))
    }

    /// An empty cache.
    pub fn new() -> (cache: Self)
        ensures
            cache.wf(),
            cache@ == Map::<Seq<char>, EntryView>::empty(),
    {
        let cache = BufferState { entries: Vec::new() };
        assert(cache@ =~= Map::<Seq<char>, EntryView>::empty());
        cache
    }

    fn position(&self, key: &String) -> (at: Option<usize>)
        ensures
            match at {
                Some(i) => i < self.entries.len() && rows_of(self.entries@)[i as int].0 == key@,
                None => !has_row(rows_of(self.entries@), key@),
            },
    {
        let mut i: usize = 0;
        while i < self.entries.len()
            invariant
                i <= self.entries.len(),
                forall|j: int| 0 <= j < i ==> (#[trigger] rows_of(self.entries@)[j]).0 != key@,
            decreases self.entries.len() - i,
        {
            if self.entries[i].key == *key {
                return Some(i);
            }
            i += 1;
        }
        None
    }

    /// Whether the cache holds an entry under `key`.
    pub fn contains(&self, key: &str) -> (held: bool)
        ensures
            held == self@.dom().contains(key@),
    {
        let wanted = key.to_owned();
        self.position(&wanted).is_some()
    }

    /// The number of entries held.
    pub fn len(&self) -> (count: usize)
        requires
            self.wf(),
        ensures
            count == self@.dom().len(),
            self@.dom().finite(),
    {
        proof {
            lemma_rows_count(rows_of(self.entries@));
        }
        self.entries.len()
    }

    /// Puts a payload under `key`, created at the time `now`; an entry
    /// already held under the key is replaced.
    pub fn put(&mut self, key: String, mime: String, bytes: Vec<u8>, mode: BufferMode, now: i64)
        requires
            old(self).wf(),
        ensures
            final(self).wf(),
            final(self)@ == put_model(
                old(self)@,
                key@,
                EntryView { mime: mime@, bytes: bytes@, created: now as int, mode },
            ),
    {
        let at = self.position(&key);
        let entry = BufferEntry { key, buffer: OnceBuffer::new(mime, bytes), created: now, mode };
        match at {
            Some(i) => {
                proof {
                    lemma_map_of_update(rows_of(self.entries@), i as int, entry@);
                    assert(rows_of(self.entries@.update(i as int, entry)) =~= rows_of(
                        self.entries@,
                    ).update(i as int, entry@));
                }
                self.entries.set(i, entry);
            },
            None => {
                proof {
                    lemma_map_of_push(rows_of(self.entries@), entry@);
                    assert(rows_of(self.entries@.push(entry)) =~= rows_of(self.entries@).push(
                        entry@,
                    ));
                }
                self.entries.push(entry);
            },
        }
    }

    /// Keeps a payload under `key` as a persistent entry created at the
    /// time `now`.
    pub fn add_entry(&mut self, key: String, mime: String, bytes: Vec<u8>, now: i64)
        requires
            old(self).wf(),
        ensures
            final(self).wf(),
            final(self)@ == put_model(old(self)@, key@, kept(mime@, bytes@, now as int)),
    {
        self.put(key, mime, bytes, BufferMode::Persistent, now);
    }

    /// Reads the payload held under `key`. A one-shot entry is removed
    /// by the read; a persistent entry stays.
    pub fn get(&mut self, key: &str) -> (payload: Option<OnceBuffer>)
        requires
            old(self).wf(),
        ensures
            final(self).wf(),
            final(self)@ == after_read(old(self)@, key@),
            match payload {
                Some(buffer) => read_model(old(self)@, key@) matches Some(entry) && buffer.mime@
                    == entry.mime && buffer.buf@ == entry.bytes,
                None => read_model(old(self)@, key@) is None,
            },
    {
        let wanted = key.to_owned();
        match self.position(&wanted) {
            Some(i) => {
                proof {
                    lemma_map_of(rows_of(self.entries@), i as int);
                }
                match self.entries[i].mode {
                    BufferMode::OneShot => {
                        proof {
                            lemma_map_of_remove(rows_of(self.entries@), i as int);
                            assert(rows_of(self.entries@.remove(i as int)) =~= rows_of(
                                self.entries@,
                            ).remove(i as int));
                        }
                        let entry = self.entries.remove(i);
                        Some(entry.buffer)
                    },
                    BufferMode::Persistent => {
                        let entry = &self.entries[i];
                        Some(OnceBuffer::new(entry.buffer.mime.clone(), copy_bytes(&entry.buffer.buf)))
                    },
                }
            },
            None => None,
        }
    }

    /// Removes every persistent entry that, at the time `now`, was
    /// created more than `ttl` ago. One-shot entries stay.
    pub fn sweep(&mut self, now: i64, ttl: i64)
        requires
            old(self).wf(),
        ensures
            final(self).wf(),
            final(self)@ == sweep_model(old(self)@, now as int, ttl as int),
    {
        let ghost start = rows_of(self.entries@);
        let ghost keep = |row: Row| !expired(row.1, now as int, ttl as int);
        let mut i: usize = self.entries.len();
        proof {
            assert(start.skip(i as int) =~= Seq::<Row>::empty());
            reveal(Seq::filter);
            assert(start.skip(i as int).filter(keep) =~= Seq::<Row>::empty());
            assert(start.take(i as int) =~= start);
        }
        while i > 0
            invariant
                i <= start.len(),
                i <= self.entries.len(),
                distinct_keys(start),
                keep == |row: Row| !expired(row.1, now as int, ttl as int),
                rows_of(self.entries@) == start.take(i as int) + start.skip(i as int).filter(keep),
            decreases i,
        {
            i -= 1;
            let ghost rows = rows_of(self.entries@);
            proof {
                assert(rows[i as int] == start[i as int]);
                assert(start.skip(i as int) =~= seq![start[i as int]] + start.skip(i + 1));
                Seq::filter_distributes_over_add(seq![start[i as int]], start.skip(i + 1), keep);
                reveal(Seq::filter);
                assert(seq![start[i as int]].drop_last() =~= Seq::<Row>::empty());
                assert(Seq::<Row>::empty().filter(keep) =~= Seq::<Row>::empty());
            }
            if is_expired(self.entries[i].mode, self.entries[i].created, now, ttl) {
                proof {
                    assert(seq![start[i as int]].filter(keep) =~= Seq::<Row>::empty());
                    assert(rows_of(self.entries@.remove(i as int)) =~= rows.remove(i as int));
                    assert(rows.remove(i as int) =~= start.take(i as int) + start.skip(
                        i as int,
                    ).filter(keep));
                }
                self.entries.remove(i);
            } else {
                proof {
                    assert(seq![start[i as int]].filter(keep) =~= seq![start[i as int]]);
                    assert(rows =~= start.take(i as int) + start.skip(i as int).filter(keep));
                }
            }
        }
        proof {
            assert(start.skip(0) =~= start);
            assert(rows_of(self.entries@) =~= start.filter(keep));
            lemma_sweep(start, now as int, ttl as int);
        }
    }
}

proof fn lemma_rows_count(rows: Seq<Row>)
    requires
        distinct_keys(rows),
    ensures
        map_of(rows).dom().finite(),
        map_of(rows).dom().len() == rows.len(),
    decreases rows.len(),
{
    if rows.len() == 0 {
        assert(map_of(rows).dom() =~= Set::<Seq<char>>::empty());
    } else {
        let front = rows.drop_last();
        lemma_rows_count(front);
        assert(!has_row(front, rows.last().0)) by {
            if has_row(front, rows.last().0) {
                let i = choose|i: int| 0 <= i < front.len() && (#[trigger] front[i]).0 == rows.last().0;
                assert(rows[i].0 == rows[rows.len() - 1].0);
            }
        }
        lemma_map_of_push(front, rows.last());
        assert(front.push(rows.last()) =~= rows);
        assert(map_of(rows).dom() =~= map_of(front).dom().insert(rows.last().0));
    }
}

proof fn lemma_sweep(rows: Seq<Row>, now: int, ttl: int)
    requires
        distinct_keys(rows),
    ensures
        distinct_keys(rows.filter(|row: Row| !expired(row.1, now, ttl))),
        map_of(rows.filter(|row: Row| !expired(row.1, now, ttl))) == sweep_model(
            map_of(rows),
            now,
            ttl,
        ),
{
    let keep = |row: Row| !expired(row.1, now, ttl);
    let kept = rows.filter(keep);
    lemma_filter_keeps_distinct(rows, keep, rows.len() as int);
    assert(rows.take(rows.len() as int) =~= rows);
    lemma_filter_members(rows, keep);
    let target = sweep_model(map_of(rows), now, ttl);
    assert forall|k: Seq<char>| #[trigger] map_of(kept).dom().contains(k) <==> target.dom().contains(k) by {
        if has_row(kept, k) {
            let i = choose|i: int| 0 <= i < kept.len() && (#[trigger] kept[i]).0 == k;
            assert(keep(kept[i]));
            assert(rows.contains(kept[i]));
            let a = choose|a: int| 0 <= a < rows.len() && rows[a] == kept[i];
            lemma_map_of(rows, a);
        }
        if target.dom().contains(k) {
            let a = choose|a: int| 0 <= a < rows.len() && (#[trigger] rows[a]).0 == k;
            lemma_map_of(rows, a);
            assert(keep(rows[a]));
            assert(kept.contains(rows[a]));
            let i = choose|i: int| 0 <= i < kept.len() && kept[i] == rows[a];
            assert(kept[i].0 == k);
        }
    }
    assert forall|k: Seq<char>| #[trigger] map_of(kept).dom().contains(k) implies map_of(kept)[k] == target[k] by {
        let i = choose|i: int| 0 <= i < kept.len() && (#[trigger] kept[i]).0 == k;
        lemma_map_of(kept, i);
        assert(rows.contains(kept[i]));
        let a = choose|a: int| 0 <= a < rows.len() && rows[a] == kept[i];
        lemma_map_of(rows, a);
    }
    assert(map_of(kept) =~= target);
}

proof fn lemma_filter_keeps_distinct(rows: Seq<Row>, keep: spec_fn(Row) -> bool, n: int)
    requires
        distinct_keys(rows),
        0 <= n <= rows.len(),
    ensures
        distinct_keys(rows.take(n).filter(keep)),
        forall|i: int|
            0 <= i < rows.take(n).filter(keep).len() ==> exists|a: int|
                0 <= a < n && rows[a] == #[trigger] rows.take(n).filter(keep)[i],
    decreases n,
{
    if n == 0 {
        reveal(Seq::filter);
        assert(rows.take(0).filter(keep) =~= Seq::<Row>::empty());
    } else {
        lemma_filter_keeps_distinct(rows, keep, n - 1);
        lemma_filter_step(rows, keep, n - 1);
        let before = rows.take(n - 1).filter(keep);
        let now = rows.take(n).filter(keep);
        assert forall|i: int| 0 <= i < now.len() implies exists|a: int|
            0 <= a < n && rows[a] == #[trigger] now[i] by {
            if i < before.len() {
                assert(now[i] == before[i]);
                let a = choose|a: int| 0 <= a < n - 1 && rows[a] == before[i];
                assert(rows[a] == now[i]);
            } else {
                assert(rows[n - 1] == now[i]);
            }
        }
        assert forall|i: int, j: int| 0 <= i < j < now.len() implies (#[trigger] now[i]).0 != (#[trigger] now[j]).0 by {
            if j < before.len() {
                assert(now[i] == before[i]);
                assert(now[j] == before[j]);
            } else {
                assert(now[i] == before[i]);
                let a = choose|a: int| 0 <= a < n - 1 && rows[a] == before[i];
                assert(now[j] == rows[n - 1]);
            }
        }
    }
}

} // verus!
